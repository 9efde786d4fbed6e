//! What callers are told: devices and their changes, tags and pictures, sources,
//! errors and codes.

use crate::device::{
    change_events, is_named, lists, told, DeviceChoice, DeviceManager, DeviceWatcher,
    HostDevices, WatchOutcome,
};
use crate::engine::{default_output_channels, default_output_sample_rate, output_device_count, AudioEngine};
use crate::error::AudioError;
use crate::events::{AudioEvent, DeviceInfo};
use crate::ffi::{
    buffer_len, dispatch_step, metadata_reply, player_state_code, queue_seconds, source_path, thumbnail_reply,
    with_engine, with_engine_mut, with_engine_mut_i32, with_engine_ref, Dispatch, DispatchStep, EngineSlot, Reply,
};
use crate::laws::events_tell_what_changed;
use crate::math::AudioMath;
use crate::metadata::{
    collect_tags, describe_track, describes, estimate_duration_millis, first_decodable, first_picture, get_metadata, get_thumbnail,
    is_json_of, is_metadata, lower_case, lower_names, pair_map, pairs, select_track, TagMap, TrackInfo, Visual,
};
use crate::player_state::PlayerState;
use crate::source::AudioSource;
use vstd::prelude::*;

verus! {

// ── Devices ───────────────────────────────────────────────────────────────────

/// Whether `infos` shows the devices of `host` whose names are told, each once and
/// in the host's order, and marks those named like the default device.
pub open spec fn shows_devices(host: HostDevices, infos: Seq<DeviceInfo>, places: Seq<int>) -> bool {
    &&& places.len() == infos.len()
    &&& forall|k: int| 0 <= k < places.len() ==> 0 <= #[trigger] places[k] < host.names().len()
    &&& forall|j: int, k: int| 0 <= j < k < places.len() ==> (#[trigger] places[j]) < #[trigger] places[k]
    &&& forall|k: int| 0 <= k < infos.len() ==> host.names()[places[k]] == Some((#[trigger] infos[k]).name)
    &&& forall|i: int| 0 <= i < host.names().len() && (#[trigger] host.names()[i]) is Some ==> places.contains(i)
    &&& forall|k: int|
        0 <= k < infos.len() ==> ((#[trigger] infos[k]).is_default <==> match host.default_device {
            Some(device) => match device.name {
                Some(name) => infos[k].name@ == name@,
                None => infos[k].name@.len() == 0,
            },
            None => infos[k].name@.len() == 0,
        })
}

proof fn lemma_told(names: Seq<Option<String>>) -> (places: Seq<int>)
    ensures
        places.len() == told(names).len(),
        forall|k: int| 0 <= k < places.len() ==> 0 <= #[trigger] places[k] < names.len(),
        forall|j: int, k: int| 0 <= j < k < places.len() ==> (#[trigger] places[j]) < #[trigger] places[k],
        forall|k: int| 0 <= k < places.len() ==> names[#[trigger] places[k]] == Some(told(names)[k]),
        forall|i: int| 0 <= i < names.len() && (#[trigger] names[i]) is Some ==> places.contains(i),
    decreases names.len(),
{
    if names.len() == 0 {
        Seq::empty()
    } else {
        let front = names.drop_last();
        let early = lemma_told(front);
        let last = names.len() - 1;
        assert forall|k: int| 0 <= k < early.len() implies names[#[trigger] early[k]] == Some(told(front)[k]) by {
            assert(front[early[k]] == names[early[k]]);
        }
        let places = match names.last() {
            Some(_) => early.push(last),
            None => early,
        };
        assert forall|i: int| 0 <= i < names.len() && (#[trigger] names[i]) is Some implies places.contains(i) by {
            if i < last {
                assert(front[i] is Some);
                let k = early.index_of(i);
                assert(places[k] == i);
            } else {
                assert(places[places.len() - 1] == i);
            }
        }
        places
    }
}

proof fn lemma_lists(host: HostDevices, infos: Seq<DeviceInfo>) -> (places: Seq<int>)
    requires
        lists(host, infos),
    ensures
        shows_devices(host, infos, places),
{
    let places = lemma_told(host.names());
    assert forall|k: int| 0 <= k < infos.len() implies host.names()[places[k]] == Some((#[trigger] infos[k]).name) by {
        assert(host.names()[places[k]] == Some(told(host.names())[k]));
    }
    assert forall|k: int| 0 <= k < infos.len() implies ((#[trigger] infos[k]).is_default <==> match host.default_device {
        Some(device) => match device.name {
            Some(name) => infos[k].name@ == name@,
            None => infos[k].name@.len() == 0,
        },
        None => infos[k].name@.len() == 0,
    }) by {
        if host.default_name().len() == 0 && infos[k].name@.len() == 0 {
            assert(infos[k].name@ =~= host.default_name());
        }
    }
    places
}

/// The devices of each direction are listed whole, in order, the default marked,
/// and counted.
pub proof fn devices_are_listed_in_order(
    devices: &DeviceManager,
    outputs: Vec<DeviceInfo>,
    inputs: Vec<DeviceInfo>,
    count: i32,
    counted: i32,
)
    requires
        call_ensures(DeviceManager::output_devices, (devices,), outputs),
        call_ensures(DeviceManager::input_devices, (devices,), inputs),
        call_ensures(AudioEngine::output_device_count, (devices,), count),
        call_ensures(output_device_count, (devices,), counted),
    ensures
        exists|places: Seq<int>| shows_devices(devices.outputs, outputs@, places),
        exists|places: Seq<int>| shows_devices(devices.inputs, inputs@, places),
        outputs@.len() <= i32::MAX ==> count == outputs@.len(),
        counted == count,
{
    let a = lemma_lists(devices.outputs, outputs@);
    let b = lemma_lists(devices.inputs, inputs@);
}

/// Whether `choice` is the first device of `host` named `name`.
pub open spec fn chosen_by_name(host: HostDevices, name: Seq<char>, choice: Result<DeviceChoice, AudioError>) -> bool {
    choice matches Ok(DeviceChoice::Listed(i)) && i < host.names().len() && (host.names()[i as int] matches Some(n)
        && n@ == name) && forall|k: int|
        0 <= k < i ==> !(#[trigger] host.names()[k] matches Some(n) && n@ == name)
}

/// Whether no device of `host` is named `name`.
pub open spec fn nobody_named(host: HostDevices, name: Seq<char>) -> bool {
    forall|k: int| 0 <= k < host.names().len() ==> !(#[trigger] host.names()[k] matches Some(n) && n@ == name)
}

/// A device that is asked for by name is the first of that name.  Where there is
/// none, an output device is refused by its name, while an engine and an input
/// take the default device, as they do where no name is given; without a default
/// device there is none.
pub proof fn device_is_chosen_by_name(
    devices: &DeviceManager,
    name: &str,
    output: Result<DeviceChoice, AudioError>,
    engine: Result<DeviceChoice, AudioError>,
    input: Result<DeviceChoice, AudioError>,
)
    requires
        call_ensures(DeviceManager::resolve_output, (devices, Some(name)), output),
        call_ensures(DeviceManager::engine_output, (devices, Some(name)), engine),
        call_ensures(DeviceManager::resolve_input, (devices, Some(name)), input),
    ensures
        chosen_by_name(devices.outputs, name@, output) || nobody_named(devices.outputs, name@),
        chosen_by_name(devices.outputs, name@, engine) || nobody_named(devices.outputs, name@),
        chosen_by_name(devices.inputs, name@, input) || nobody_named(devices.inputs, name@),
        nobody_named(devices.outputs, name@) ==> (output matches Err(AudioError::DeviceNotFound { name: missing })
            && missing@ == name@),
        nobody_named(devices.outputs, name@) ==> (engine == Ok::<DeviceChoice, AudioError>(DeviceChoice::Default) <==>
            devices.outputs.default_device is Some),
        nobody_named(devices.outputs, name@) ==> (engine == Err::<DeviceChoice, AudioError>(AudioError::NoDevice) <==>
            devices.outputs.default_device is None),
        nobody_named(devices.inputs, name@) ==> (input == Ok::<DeviceChoice, AudioError>(DeviceChoice::Default) <==>
            devices.inputs.default_device is Some),
        nobody_named(devices.inputs, name@) ==> (input == Err::<DeviceChoice, AudioError>(AudioError::NoDevice) <==>
            devices.inputs.default_device is None),
{
    lemma_has(devices.outputs, name@);
    lemma_has(devices.inputs, name@);
}

proof fn lemma_has(host: HostDevices, name: Seq<char>)
    ensures
        host.has(name) <==> !nobody_named(host, name),
        forall|i: usize| #[trigger]
            crate::device::first_named(host.names(), name, i as int) ==> chosen_by_name(
                host,
                name,
                Ok(DeviceChoice::Listed(i)),
            ),
{
    if host.has(name) {
        let i = choose|i: int| 0 <= i < host.names().len() && is_named(#[trigger] host.names()[i], name);
        assert(host.names()[i] matches Some(n) && n@ == name);
    }
    if !nobody_named(host, name) {
        let i = choose|i: int|
            0 <= i < host.names().len() && (#[trigger] host.names()[i] matches Some(n) && n@ == name);
        assert(is_named(host.names()[i], name));
    }
    assert forall|i: usize| #[trigger] crate::device::first_named(host.names(), name, i as int) implies chosen_by_name(
        host,
        name,
        Ok(DeviceChoice::Listed(i)),
    ) by {
        assert forall|k: int| 0 <= k < i implies !(#[trigger] host.names()[k] matches Some(n) && n@ == name) by {
            assert(!is_named(host.names()[k], name));
        }
    }
}

/// Without a name the default device is taken, where there is one.
pub proof fn default_device_is_taken_without_a_name(
    devices: &DeviceManager,
    output: Result<DeviceChoice, AudioError>,
    engine: Result<DeviceChoice, AudioError>,
    input: Result<DeviceChoice, AudioError>,
)
    requires
        call_ensures(DeviceManager::resolve_output, (devices, None), output),
        call_ensures(DeviceManager::engine_output, (devices, None), engine),
        call_ensures(DeviceManager::resolve_input, (devices, None), input),
    ensures
        output is Ok <==> devices.outputs.default_device is Some,
        output is Ok ==> output->Ok_0 == DeviceChoice::Default,
        output is Err ==> output->Err_0 is NoDevice,
        engine is Ok <==> devices.outputs.default_device is Some,
        engine is Ok ==> engine->Ok_0 == DeviceChoice::Default,
        engine is Err ==> engine->Err_0 is NoDevice,
        input is Ok <==> devices.inputs.default_device is Some,
        input is Ok ==> input->Ok_0 == DeviceChoice::Default,
        input is Err ==> input->Err_0 is NoDevice,
{
}

/// The default format is told the same way everywhere, as zeros or minus ones where
/// there is none.
pub proof fn default_format_is_told(
    devices: &DeviceManager,
    format: (u32, u16),
    rate: i32,
    channels: i32,
    told_rate: i32,
    told_channels: i32,
)
    requires
        call_ensures(DeviceManager::default_output_format, (devices,), format),
        call_ensures(AudioEngine::default_output_sample_rate, (devices,), rate),
        call_ensures(AudioEngine::default_output_channels, (devices,), channels),
        call_ensures(default_output_sample_rate, (devices,), told_rate),
        call_ensures(default_output_channels, (devices,), told_channels),
    ensures
        told_rate == rate,
        told_channels == channels,
        match devices.outputs.default_device {
            Some(device) => match device.format {
                Some(f) => format == f && (f.0 <= i32::MAX ==> rate == f.0) && channels == f.1,
                None => format == (0u32, 0u16) && rate == -1 && channels == -1,
            },
            None => format == (0u32, 0u16) && rate == -1 && channels == -1,
        },
{
}

/// A device manager keeps outputs and inputs apart.
pub proof fn directions_are_kept_apart(outputs: HostDevices, inputs: HostDevices, devices: DeviceManager)
    requires
        call_ensures(DeviceManager::new, (outputs, inputs), devices),
    ensures
        devices.outputs == outputs,
        devices.inputs == inputs,
{
}

/// A poll tells each device that has come and each that has gone by name, and a
/// change of the default device last; it remembers what it saw, so that the next
/// one tells only what has changed since.
pub proof fn poll_tells_what_changed(
    watcher: &mut DeviceWatcher,
    devices: &Vec<DeviceInfo>,
    current_default: String,
    r: WatchOutcome,
    d: DeviceInfo,
)
    requires
        call_ensures(DeviceWatcher::poll, (watcher, devices, current_default), r),
    ensures
        r.events@.contains(AudioEvent::DeviceAdded(d)) <==> devices@.contains(d) && forall|i: int|
            0 <= i < old(watcher).last_devices@.len() ==> (#[trigger] old(watcher).last_devices@[i]).name@ != d.name@,
        r.events@.contains(AudioEvent::DeviceRemoved(d)) <==> old(watcher).last_devices@.contains(d) && forall|i: int|
            0 <= i < devices@.len() ==> (#[trigger] devices@[i]).name@ != d.name@,
        r.events@.contains(AudioEvent::DefaultDeviceChanged(d)) <==> r.revise_stream && d.name == current_default
            && d.is_default,
        r.revise_stream <==> current_default@ != old(watcher).last_default_name@,
        r.revise_stream ==> r.events@.last() is DefaultDeviceChanged,
        forall|i: int|
            0 <= i < r.events@.len() ==> #[trigger] r.events@[i] is DeviceAdded || r.events@[i] is DeviceRemoved
                || r.events@[i] is DefaultDeviceChanged,
        forall|i: int, j: int|
            0 <= i < j < r.events@.len() && (#[trigger] r.events@[j]) is DeviceAdded ==> (#[trigger] r.events@[i])
                is DeviceAdded,
        final(watcher).last_devices@ == devices@,
        final(watcher).last_default_name@ == current_default@,
{
    let last = old(watcher).last_devices@;
    let events = change_events(last, devices@);
    events_tell_what_changed(last, devices@, d);
    let tail: Seq<AudioEvent> = if r.revise_stream {
        seq![AudioEvent::DefaultDeviceChanged(DeviceInfo { name: current_default, is_default: true })]
    } else {
        Seq::empty()
    };
    assert(r.events@ == events + tail);
    let come = crate::device::missing_from(devices@, last);
    let gone = crate::device::missing_from(last, devices@);
    assert forall|i: int| 0 <= i < events.len() implies if i < come.len() {
        (#[trigger] events[i]) is DeviceAdded
    } else {
        events[i] is DeviceRemoved
    } by {}
    assert forall|i: int| 0 <= i < r.events@.len() implies (i < come.len() <==> (#[trigger] r.events@[i]) is DeviceAdded)
        && (come.len() <= i < events.len() <==> r.events@[i] is DeviceRemoved) && (i >= events.len() <==> r.events@[i]
        is DefaultDeviceChanged) by {
        if i < events.len() {
            assert(r.events@[i] == events[i]);
        } else {
            assert(r.events@[i] == tail[i - events.len()]);
        }
    }
    assert forall|e: AudioEvent| events.contains(e) || tail.contains(e) <==> #[trigger] r.events@.contains(e) by {
        if events.contains(e) {
            assert(r.events@[events.index_of(e)] == e);
        }
        if tail.contains(e) {
            assert(r.events@[events.len() + tail.index_of(e)] == e);
        }
        if r.events@.contains(e) {
            let i = r.events@.index_of(e);
            if i < events.len() {
                assert(events[i] == e);
            } else {
                assert(tail[i - events.len()] == e);
            }
        }
    }
    if r.revise_stream {
        assert(tail[0] == AudioEvent::DefaultDeviceChanged(DeviceInfo { name: current_default, is_default: true }));
        assert(r.events@.last() == tail[0]);
        assert(tail.contains(tail[0]));
    }
    if events.contains(AudioEvent::DefaultDeviceChanged(d)) {
        let i = events.index_of(AudioEvent::DefaultDeviceChanged(d));
        assert(events[i] is DefaultDeviceChanged);
    }
    if tail.contains(AudioEvent::DeviceAdded(d)) {
        let i = tail.index_of(AudioEvent::DeviceAdded(d));
        assert(tail[i] is DefaultDeviceChanged);
    }
    if tail.contains(AudioEvent::DeviceRemoved(d)) {
        let i = tail.index_of(AudioEvent::DeviceRemoved(d));
        assert(tail[i] is DefaultDeviceChanged);
    }
}

/// A watcher starts from what it is shown.
pub proof fn watcher_starts_from_what_is_there(devices: &Vec<DeviceInfo>, default_name: String, watcher: DeviceWatcher)
    requires
        call_ensures(DeviceWatcher::new, (devices, default_name), watcher),
    ensures
        watcher.last_devices@ == devices@,
        watcher.last_default_name == default_name,
{
}

// ── Tags ──────────────────────────────────────────────────────────────────────

/// A tag that is set reads back; the others stay.
pub proof fn set_tag_reads_back(tags: &mut TagMap, key: String, value: String, k: Seq<char>)
    requires
        call_ensures(TagMap::insert, (tags, key, value), ()),
        old(tags).well_formed(),
    ensures
        final(tags)@.contains_key(key@),
        final(tags)@[key@] == value@,
        k != key@ ==> (final(tags)@.contains_key(k) <==> old(tags)@.contains_key(k)),
        k != key@ && old(tags)@.contains_key(k) ==> final(tags)@[k] == old(tags)@[k],
{
}

/// Whether `i` is the last of `names` that is `name`.
pub open spec fn last_named(names: Seq<(Seq<char>, Seq<char>)>, name: Seq<char>, i: int) -> bool {
    &&& 0 <= i < names.len()
    &&& names[i].0 == name
    &&& forall|k: int| i < k < names.len() ==> (#[trigger] names[k]).0 != name
}

proof fn lemma_last_stays(members: Seq<(Seq<char>, Seq<char>)>, name: Seq<char>)
    ensures
        pair_map(members).contains_key(name) <==> exists|i: int| #[trigger] last_named(members, name, i),
        forall|i: int| #[trigger] last_named(members, name, i) ==> pair_map(members)[name] == members[i].1,
    decreases members.len(),
{
    if members.len() > 0 {
        let front = members.drop_last();
        let last = members.len() - 1;
        lemma_last_stays(front, name);
        if members.last().0 == name {
            assert(last_named(members, name, last));
            assert forall|i: int| #[trigger] last_named(members, name, i) implies i == last by {
                if i < last {
                    assert(members[last].0 == name);
                }
            }
        } else {
            assert forall|i: int| last_named(members, name, i) <==> #[trigger] last_named(front, name, i) by {
                if last_named(front, name, i) {
                    assert forall|k: int| i < k < members.len() implies (#[trigger] members[k]).0 != name by {
                        if k < last {
                            assert(front[k].0 != name);
                        }
                    }
                }
                if last_named(members, name, i) {
                    assert(i < last);
                    assert forall|k: int| i < k < front.len() implies (#[trigger] front[k]).0 != name by {
                        assert(members[k].0 != name);
                    }
                }
            }
            if pair_map(members).contains_key(name) {
                let i = choose|i: int| #[trigger] last_named(front, name, i);
                assert(last_named(members, name, i));
            }
            if exists|i: int| #[trigger] last_named(members, name, i) {
                let i = choose|i: int| #[trigger] last_named(members, name, i);
                assert(last_named(front, name, i));
            }
            assert forall|i: int| #[trigger] last_named(members, name, i) implies pair_map(members)[name]
                == members[i].1 by {
                assert(last_named(front, name, i));
                assert(front[i] == members[i]);
            }
        }
    }
}

/// Of the tags of one name the last stays, and every name that occurs has one.
pub proof fn last_tag_of_a_name_stays(tags: &Vec<(String, String)>, r: TagMap, name: Seq<char>, i: int)
    requires
        call_ensures(collect_tags, (tags,), r),
    ensures
        r@.contains_key(name) <==> exists|k: int| 0 <= k < tags@.len() && (#[trigger] tags@[k]).0@ == name,
        0 <= i < tags@.len() && tags@[i].0@ == name && (forall|k: int|
            i < k < tags@.len() ==> (#[trigger] tags@[k]).0@ != name) ==> r@[name] == tags@[i].1@,
{
    let all = pairs(tags@);
    lemma_last_stays(all, name);
    lemma_some_last(all, name);
    if exists|k: int| 0 <= k < tags@.len() && (#[trigger] tags@[k]).0@ == name {
        let k = choose|k: int| 0 <= k < tags@.len() && (#[trigger] tags@[k]).0@ == name;
        assert(all[k].0 == name);
    }
    if r@.contains_key(name) {
        let k = choose|k: int| #[trigger] last_named(all, name, k);
        assert(tags@[k].0@ == name);
    }
    if 0 <= i < tags@.len() && tags@[i].0@ == name && (forall|k: int|
        i < k < tags@.len() ==> (#[trigger] tags@[k]).0@ != name) {
        assert forall|k: int| i < k < all.len() implies (#[trigger] all[k]).0 != name by {
            assert(tags@[k].0@ != name);
        }
        assert(last_named(all, name, i));
    }
}

proof fn lemma_some_last(members: Seq<(Seq<char>, Seq<char>)>, name: Seq<char>)
    ensures
        (exists|k: int| 0 <= k < members.len() && (#[trigger] members[k]).0 == name) ==> exists|i: int| #[trigger]
            last_named(members, name, i),
    decreases members.len(),
{
    if exists|k: int| 0 <= k < members.len() && (#[trigger] members[k]).0 == name {
        let last = members.len() - 1;
        if members[last].0 == name {
            assert(last_named(members, name, last));
        } else {
            let front = members.drop_last();
            let k = choose|k: int| 0 <= k < members.len() && (#[trigger] members[k]).0 == name;
            assert(front[k].0 == name);
            lemma_some_last(front, name);
            let i = choose|i: int| #[trigger] last_named(front, name, i);
            assert forall|k: int| i < k < members.len() implies (#[trigger] members[k]).0 != name by {
                if k < last {
                    assert(front[k].0 != name);
                }
            }
            assert(last_named(members, name, i));
        }
    }
}

/// Names are put into lower case one by one; the texts stay.
pub proof fn names_are_lowered_one_by_one(tags: &Vec<(String, String)>, r: Vec<(String, String)>, i: int)
    requires
        call_ensures(lower_names, (tags,), r),
        0 <= i < tags@.len(),
    ensures
        r@.len() == tags@.len(),
        r@[i].0@ == lower_case(tags@[i].0@),
        r@[i].1@ == tags@[i].1@,
{
    assert(pairs(r@).len() == r@.len());
    assert(pairs(r@)[i] == (r@[i].0@, r@[i].1@));
}

/// The first decodable track is selected, and none only where there is none.
pub proof fn first_decodable_track_is_selected(tracks: &Vec<TrackInfo>, r: Option<usize>)
    requires
        call_ensures(select_track, (tracks,), r),
    ensures
        r is None <==> forall|i: int| 0 <= i < tracks@.len() ==> !(#[trigger] tracks@[i]).decodable,
        r is Some ==> r->0 < tracks@.len() && tracks@[r->0 as int].decodable,
        r is Some ==> forall|i: int| 0 <= i < r->0 ==> !(#[trigger] tracks@[i]).decodable,
{
}

/// Whether the entries `map` tell what is known of `track`, and of everything else
/// what the tags say whose names are in lower case, the last of each name.
pub open spec fn tells_of<M: AudioMath>(
    map: Map<Seq<char>, Seq<char>>,
    tags: Seq<(String, String)>,
    track: TrackInfo,
) -> bool {
    &&& map.contains_key("codec"@) && map["codec"@] == track.codec@
    &&& track.channels matches Some(n) ==> map.contains_key("channels"@) && map["channels"@] == crate::text::decimal(
        n as nat,
    )
    &&& track.sample_rate matches Some(n) ==> map.contains_key("sample_rate"@) && map["sample_rate"@]
        == crate::text::decimal(n as nat)
    &&& track.n_frames matches Some(n) ==> map.contains_key("frame_count"@) && map["frame_count"@]
        == crate::text::decimal(n as nat)
    &&& track.n_frames is Some && track.sample_rate is Some ==> map.contains_key("duration_seconds"@)
        && exists|text: String| #[trigger]
        call_ensures(M::duration_text, (track.n_frames->0, track.sample_rate->0), text) && map["duration_seconds"@]
            == text@
    &&& forall|k: Seq<char>|
        k != "codec"@ && (k != "channels"@ || track.channels is None) && (k != "sample_rate"@ || track.sample_rate
            is None) && (k != "frame_count"@ || track.n_frames is None) && (k != "duration_seconds"@ || track.n_frames
            is None || track.sample_rate is None) ==> (#[trigger] map.contains_key(k) <==> exists|i: int|
            0 <= i < tags.len() && lower_case((#[trigger] tags[i]).0@) == k)
    &&& forall|k: Seq<char>, i: int|
        k != "codec"@ && (k != "channels"@ || track.channels is None) && (k != "sample_rate"@ || track.sample_rate
            is None) && (k != "frame_count"@ || track.n_frames is None) && (k != "duration_seconds"@ || track.n_frames
            is None || track.sample_rate is None) && #[trigger] last_lowered(tags, k, i) ==> map[k] == tags[i].1@
}

/// Whether tag `i` is the last one whose name in lower case is `name`.
pub open spec fn last_lowered(tags: Seq<(String, String)>, name: Seq<char>, i: int) -> bool {
    &&& 0 <= i < tags.len()
    &&& lower_case(tags[i].0@) == name
    &&& forall|k: int| i < k < tags.len() ==> lower_case((#[trigger] tags[k]).0@) != name
}

proof fn lemma_keys_differ()
    ensures
        "codec"@ != "channels"@,
        "codec"@ != "sample_rate"@,
        "codec"@ != "frame_count"@,
        "codec"@ != "duration_seconds"@,
        "channels"@ != "sample_rate"@,
        "channels"@ != "frame_count"@,
        "channels"@ != "duration_seconds"@,
        "sample_rate"@ != "frame_count"@,
        "sample_rate"@ != "duration_seconds"@,
        "frame_count"@ != "duration_seconds"@,
{
    reveal_strlit("codec");
    reveal_strlit("channels");
    reveal_strlit("sample_rate");
    reveal_strlit("frame_count");
    reveal_strlit("duration_seconds");
    assert("codec"@.len() == 5);
    assert("channels"@.len() == 8);
    assert("sample_rate"@.len() == 11 && "sample_rate"@[0] == 's');
    assert("frame_count"@.len() == 11 && "frame_count"@[0] == 'f');
    assert("duration_seconds"@.len() == 16);
}

proof fn lemma_tells<M: AudioMath>(
    tags: Seq<(String, String)>,
    track: TrackInfo,
    map: Map<Seq<char>, Seq<char>>,
)
    requires
        describes::<M>(crate::metadata::lower_tag_map(tags), track, map),
    ensures
        tells_of::<M>(map, tags, track),
{
    lemma_keys_differ();
    let all = crate::metadata::lower_pairs(tags);
    let base = crate::metadata::lower_tag_map(tags);
    let duration = choose|duration: Seq<char>| #[trigger]
        crate::metadata::lasts::<M>(track, duration) && map == crate::metadata::with_track(base, track, duration);
    if track.n_frames is Some && track.sample_rate is Some {
        let text = choose|text: String| #[trigger]
            call_ensures(M::duration_text, (track.n_frames->0, track.sample_rate->0), text) && text@ == duration;
        assert(call_ensures(M::duration_text, (track.n_frames->0, track.sample_rate->0), text));
    }
    assert forall|k: Seq<char>|
        k != "codec"@ && (k != "channels"@ || track.channels is None) && (k != "sample_rate"@ || track.sample_rate
            is None) && (k != "frame_count"@ || track.n_frames is None) && (k != "duration_seconds"@ || track.n_frames
            is None || track.sample_rate is None) implies (#[trigger] map.contains_key(k) <==> exists|i: int|
        0 <= i < tags.len() && lower_case((#[trigger] tags[i]).0@) == k) by {
        assert(map.contains_key(k) <==> base.contains_key(k));
        lemma_last_stays(all, k);
        lemma_some_last(all, k);
        if base.contains_key(k) {
            let i = choose|i: int| #[trigger] last_named(all, k, i);
            assert(lower_case(tags[i].0@) == k);
        }
        if exists|i: int| 0 <= i < tags.len() && lower_case((#[trigger] tags[i]).0@) == k {
            let i = choose|i: int| 0 <= i < tags.len() && lower_case((#[trigger] tags[i]).0@) == k;
            assert(all[i].0 == k);
        }
    }
    assert forall|k: Seq<char>, i: int|
        k != "codec"@ && (k != "channels"@ || track.channels is None) && (k != "sample_rate"@ || track.sample_rate
            is None) && (k != "frame_count"@ || track.n_frames is None) && (k != "duration_seconds"@ || track.n_frames
            is None || track.sample_rate is None) && #[trigger] last_lowered(tags, k, i) implies map[k]
        == tags[i].1@ by {
        lemma_last_stays(all, k);
        assert forall|j: int| i < j < all.len() implies (#[trigger] all[j]).0 != k by {
            assert(lower_case(tags[j].0@) != k);
        }
        assert(last_named(all, k, i));
        assert(map[k] == base[k]);
    }
}

/// The metadata of a file is a JSON object with what is known of its first
/// decodable track and, beside that, with its tags, their names in lower case and
/// the last of each name; only a file without such a track has none.
pub proof fn metadata_tells_of_track_and_tags<M: AudioMath>(
    tags: &Vec<(String, String)>,
    tracks: &Vec<TrackInfo>,
    r: Result<String, String>,
    i: int,
)
    requires
        call_ensures(get_metadata::<M>, (tags, tracks), r),
        0 <= i < tracks@.len(),
        tracks@[i].decodable,
        forall|k: int| 0 <= k < i ==> !(#[trigger] tracks@[k]).decodable,
    ensures
        r is Ok,
        exists|map: Map<Seq<char>, Seq<char>>| #[trigger]
            is_json_of(r->Ok_0@, map) && tells_of::<M>(map, tags@, tracks@[i]),
{
    assert(r is Ok);
    let text = r->Ok_0@;
    let j = choose|j: int| #[trigger] first_decodable(tracks@, j) && is_metadata::<M>(tags@, tracks@[j], text);
    assert(j == i) by {
        if j < i {
            assert(!tracks@[j].decodable);
        }
        if i < j {
            assert(!tracks@[i].decodable);
        }
    }
    let map = choose|map: Map<Seq<char>, Seq<char>>| #[trigger]
        describes::<M>(crate::metadata::lower_tag_map(tags@), tracks@[i], map) && is_json_of(text, map);
    lemma_tells::<M>(tags@, tracks@[i], map);
    assert(is_json_of(text, map));
}

/// The engine tells the same metadata and the same picture.
pub proof fn engine_tells_the_same<M: AudioMath>(
    tags: &Vec<(String, String)>,
    tracks: &Vec<TrackInfo>,
    r: Result<String, String>,
    visuals: &Vec<Visual>,
    picture: Vec<u8>,
    own: Vec<u8>,
)
    requires
        call_ensures(AudioEngine::get_metadata::<M>, (tags, tracks), r),
        call_ensures(AudioEngine::get_thumbnail, (visuals,), picture),
        call_ensures(get_thumbnail, (visuals,), own),
    ensures
        r is Err <==> forall|i: int| 0 <= i < tracks@.len() ==> !(#[trigger] tracks@[i]).decodable,
        r is Err ==> r->Err_0@ == "No decodable audio track found"@,
        r is Ok ==> exists|i: int, map: Map<Seq<char>, Seq<char>>|
            #![trigger first_decodable(tracks@, i), is_json_of(r->Ok_0@, map)]
            first_decodable(tracks@, i) && is_json_of(r->Ok_0@, map) && tells_of::<M>(map, tags@, tracks@[i]),
        picture@ == own@,
{
    if r is Ok {
        let text = r->Ok_0@;
        let i = choose|i: int| #[trigger] first_decodable(tracks@, i) && is_metadata::<M>(tags@, tracks@[i], text);
        let map = choose|map: Map<Seq<char>, Seq<char>>| #[trigger]
            describes::<M>(crate::metadata::lower_tag_map(tags@), tracks@[i], map) && is_json_of(text, map);
        lemma_tells::<M>(tags@, tracks@[i], map);
        assert(first_decodable(tracks@, i));
        assert(is_json_of(text, map));
    }
    lemma_picture(visuals@);
}

proof fn lemma_picture(visuals: Seq<Visual>)
    ensures
        (exists|i: int| first_picture(visuals, i)) || forall|i: int|
            0 <= i < visuals.len() ==> !crate::metadata::is_picture(#[trigger] visuals[i]),
    decreases visuals.len(),
{
    if visuals.len() > 0 {
        let front = visuals.drop_last();
        lemma_picture(front);
        if exists|i: int| first_picture(front, i) {
            let i = choose|i: int| first_picture(front, i);
            assert forall|k: int| 0 <= k < i implies !crate::metadata::is_picture(#[trigger] visuals[k]) by {
                assert(front[k] == visuals[k]);
            }
            assert(first_picture(visuals, i));
        } else {
            assert forall|k: int| 0 <= k < visuals.len() - 1 implies !crate::metadata::is_picture(
                #[trigger] visuals[k],
            ) by {
                assert(front[k] == visuals[k]);
            }
            if crate::metadata::is_picture(visuals.last()) {
                assert(first_picture(visuals, visuals.len() - 1));
            }
        }
    }
}

/// The picture of a file is the whole data of its first image: what comes before is
/// no image, and without an image there is none.
pub proof fn picture_is_the_first_image(visuals: &Vec<Visual>, r: Vec<u8>)
    requires
        call_ensures(get_thumbnail, (visuals,), r),
    ensures
        forall|i: int|
            0 <= i < visuals@.len() && "image/"@.is_prefix_of((#[trigger] visuals@[i]).media_type@) && (forall|k: int|
                0 <= k < i ==> !"image/"@.is_prefix_of((#[trigger] visuals@[k]).media_type@)) ==> r@
                == visuals@[i].data@,
        (forall|i: int| 0 <= i < visuals@.len() ==> !"image/"@.is_prefix_of((#[trigger] visuals@[i]).media_type@))
            ==> r@.len() == 0,
{
    assert forall|i: int|
        0 <= i < visuals@.len() && "image/"@.is_prefix_of((#[trigger] visuals@[i]).media_type@) && (forall|k: int|
            0 <= k < i ==> !"image/"@.is_prefix_of((#[trigger] visuals@[k]).media_type@)) implies r@
        == visuals@[i].data@ by {
        assert forall|k: int| 0 <= k < i implies !crate::metadata::is_picture(#[trigger] visuals@[k]) by {
            assert(!"image/"@.is_prefix_of(visuals@[k].media_type@));
        }
        assert(first_picture(visuals@, i));
    }
    if forall|i: int| 0 <= i < visuals@.len() ==> !"image/"@.is_prefix_of((#[trigger] visuals@[i]).media_type@) {
        assert forall|k: int| 0 <= k < visuals@.len() implies !crate::metadata::is_picture(#[trigger] visuals@[k]) by {
            assert(!"image/"@.is_prefix_of(visuals@[k].media_type@));
        }
    }
}

/// The length of a file is that of its first decodable track, where its frames and
/// its rate are known.
pub proof fn length_is_that_of_the_first_track<M: AudioMath>(
    tracks: &Vec<TrackInfo>,
    r: i32,
    unread: i32,
    i: int,
)
    requires
        call_ensures(estimate_duration_millis::<M>, (Some(tracks),), r),
        call_ensures(estimate_duration_millis::<M>, (None,), unread),
    ensures
        unread == -1,
        (forall|k: int| 0 <= k < tracks@.len() ==> !(#[trigger] tracks@[k]).decodable) ==> r == -1,
        0 <= i < tracks@.len() && tracks@[i].decodable && (forall|k: int|
            0 <= k < i ==> !(#[trigger] tracks@[k]).decodable) ==> {
            &&& tracks@[i].n_frames is Some && tracks@[i].sample_rate is Some ==> call_ensures(
                M::duration_millis,
                (tracks@[i].n_frames->0, tracks@[i].sample_rate->0),
                r,
            )
            &&& tracks@[i].n_frames is None || tracks@[i].sample_rate is None ==> r == -1
        },
{
    if 0 <= i < tracks@.len() && tracks@[i].decodable && (forall|k: int|
        0 <= k < i ==> !(#[trigger] tracks@[k]).decodable) {
        assert(first_decodable(tracks@, i));
    }
}

// ── Sources and errors ────────────────────────────────────────────────────────

/// A text that begins like a web address is the URL of a remote source, any other
/// the path of a local one; the text itself is kept.
pub proof fn source_is_told_by_its_text(path: &str, source: AudioSource, remote: bool)
    requires
        call_ensures(AudioSource::locate, (path,), source),
        call_ensures(AudioSource::is_remote, (&source,), remote),
    ensures
        remote <==> "http://"@.is_prefix_of(path@) || "https://"@.is_prefix_of(path@),
        remote ==> source is Url && source->Url_0@ == path@,
        !remote ==> source is Path && source->Path_0@ == path@,
{
}

/// A source is described by where it comes from.
pub proof fn source_is_described(source: &AudioSource, r: String)
    requires
        call_ensures(AudioSource::description, (source,), r),
    ensures
        *source matches AudioSource::Path(p) ==> r@ == "file://"@ + p@,
        *source matches AudioSource::Url(u) ==> r@ == u@,
        *source matches AudioSource::Memory(b) ==> r@ == "<memory "@ + crate::text::decimal(b@.len()) + " bytes>"@,
{
}

/// Every error says what went wrong, with what it was told of it.
pub proof fn error_says_what_went_wrong(e: &AudioError, r: String)
    requires
        call_ensures(AudioError::text, (e,), r),
    ensures
        *e is NoDevice ==> r@ == "No output device available"@,
        *e matches AudioError::DeviceNotFound { name } ==> r@ == "Device not found: "@ + name@,
        *e matches AudioError::UnsupportedFormat(s) ==> r@ == "Unsupported format: "@ + s@,
        *e matches AudioError::DecodeError(s) ==> r@ == "Decode error: "@ + s@,
        *e matches AudioError::Io(s) ==> r@ == "I/O error: "@ + s@,
        *e matches AudioError::Network(s) ==> r@ == "Network error: "@ + s@,
        *e matches AudioError::StreamConfig(s) ==> r@ == "Stream config error: "@ + s@,
        *e matches AudioError::StreamBuild(s) ==> r@ == "Stream build error: "@ + s@,
        *e is SeekNotSupported ==> r@ == "Seek not supported for this source"@,
        *e matches AudioError::SeekOutOfRange { pos_ms } ==> r@ == "Seek out of range: "@
            + crate::text::signed_decimal(pos_ms as int) + " ms"@,
        *e matches AudioError::Pipeline(s) ==> r@ == "Pipeline error: "@ + s@,
        *e is NoSource ==> r@ == "No source loaded"@,
        *e is Poisoned ==> r@ == "Internal mutex poisoned"@,
{
}

// ── Codes ─────────────────────────────────────────────────────────────────────

/// An engine is made once, where there is none, and then used; whatever keeps it
/// from being used is told apart.
pub proof fn engine_is_made_once(slot: EngineSlot, created: Option<bool>, r: DispatchStep)
    requires
        call_ensures(dispatch_step, (slot, created), r),
    ensures
        r == DispatchStep::Run <==> slot == EngineSlot::Filled,
        r == DispatchStep::RefusePoisoned <==> slot == EngineSlot::Poisoned,
        r == DispatchStep::Create <==> slot == EngineSlot::Empty && created is None,
        r == DispatchStep::RefuseInitFailed <==> slot == EngineSlot::Empty && created == Some(false),
        r == DispatchStep::RefuseMissing <==> slot == EngineSlot::Empty && created == Some(true),
{
}

/// An operation that ran is told by its result, one that did not by a code of its
/// own.
pub proof fn outcomes_have_their_codes(
    a: Dispatch<Result<(), String>>,
    x: i32,
    b: Dispatch<i32>,
    y: i32,
    c: Dispatch<Result<i32, String>>,
    z: i32,
)
    requires
        call_ensures(with_engine_mut, (a,), x),
        call_ensures(with_engine_ref, (b,), y),
        call_ensures(with_engine_mut_i32, (c,), z),
    ensures
        x == 0 <==> (a matches Dispatch::Done(r) && r is Ok),
        x == -1 <==> (a matches Dispatch::Done(r) && r is Err),
        x == -500 <==> a is Poisoned,
        x == -501 <==> a is InitFailed,
        x == -502 <==> a is Missing,
        b matches Dispatch::Done(value) ==> y == value,
        b is Poisoned ==> y == -500,
        b is InitFailed ==> y == -501,
        b is Missing ==> y == -502,
        c matches Dispatch::Done(Ok(value)) ==> z == value,
        c matches Dispatch::Done(Err(_)) ==> z == -1,
        c is Poisoned ==> z == -500,
        c is InitFailed ==> z == -501,
        c is Missing ==> z == -502,
{
}

/// A result is handed on where there is one, and the default where there is none.
pub proof fn default_stands_in<R>(outcome: Dispatch<R>, default: R, r: R)
    requires
        call_ensures(with_engine::<R>, (outcome, default), r),
    ensures
        outcome matches Dispatch::Done(value) ==> r == value,
        !(outcome is Done) ==> r == default,
{
}

/// Each state has a code of its own, counted from zero.
pub proof fn states_have_their_codes(state: PlayerState, other: PlayerState, r: i32, s: i32)
    requires
        call_ensures(player_state_code, (state,), r),
        call_ensures(player_state_code, (other,), s),
    ensures
        r == s <==> state == other,
        0 <= r <= 3,
        state == PlayerState::Idle <==> r == 0,
        state == PlayerState::Playing <==> r == 1,
        state == PlayerState::Paused <==> r == 2,
{
}

/// A buffer without room, a queue without a second and a path that cannot be read
/// are bad arguments; a file that does not open is an error.  Anything else is
/// taken as it is.
pub proof fn arguments_are_checked(
    is_null: bool,
    len: i32,
    buffer: Result<usize, i32>,
    seconds: i32,
    queue: Result<usize, i32>,
    text: Option<String>,
    opens: bool,
    path: Result<String, i32>,
)
    requires
        call_ensures(buffer_len, (is_null, len), buffer),
        call_ensures(queue_seconds, (seconds,), queue),
        call_ensures(source_path, (text, opens), path),
    ensures
        buffer is Ok <==> !is_null && len > 0,
        buffer is Ok ==> buffer->Ok_0 == len,
        buffer is Err ==> buffer->Err_0 == -2,
        queue is Ok <==> seconds > 0,
        queue is Ok ==> queue->Ok_0 == seconds,
        queue is Err ==> queue->Err_0 == -2,
        path is Ok <==> text is Some && opens,
        path is Ok ==> path->Ok_0 == text->0,
        path is Err ==> path->Err_0 == (if text is None { -2 } else { -1int }),
{
}

/// Metadata is answered whole and with a zero behind it, or not at all: where it
/// fits with its zero, the code is its length.
pub proof fn metadata_is_answered_whole(json: Result<String, String>, max_len: i32, r: Reply)
    requires
        call_ensures(metadata_reply, (json, max_len), r),
    ensures
        json is Err ==> r.code == -1 && r.bytes@.len() == 0,
        json matches Ok(text) ==> {
            let bytes = vstd::utf8::encode_utf8(text@);
            &&& 0 < bytes.len() < max_len ==> r.code == bytes.len() && r.bytes@.len() == bytes.len() + 1
                && r.bytes@.last() == 0 && forall|i: int| 0 <= i < bytes.len() ==> r.bytes@[i] == bytes[i]
            &&& bytes.len() == 0 ==> r.code == -2 && r.bytes@.len() == 0
            &&& max_len <= bytes.len() <= i32::MAX ==> r.code == -2 && r.bytes@.len() == 0
        },
        r.bytes@.len() <= max_len || r.bytes@.len() == 0,
{
}

/// A picture is answered from its start, as much of it as there is room for, and
/// the code is how much that is.
pub proof fn picture_is_answered_as_far_as_it_fits(picture: Result<Vec<u8>, String>, max_len: i32, r: Reply)
    requires
        call_ensures(thumbnail_reply, (picture, max_len), r),
        max_len > 0,
    ensures
        picture is Err ==> r.code == -1 && r.bytes@.len() == 0,
        picture matches Ok(data) ==> {
            &&& r.code == r.bytes@.len()
            &&& r.code <= max_len
            &&& r.code <= data@.len()
            &&& r.code == max_len || r.code == data@.len()
            &&& forall|i: int| 0 <= i < r.code ==> r.bytes@[i] == data@[i]
        },
{
}

/// What is known of a track is added to the tags of its file, whose other entries
/// stay.
pub proof fn track_is_added_to_the_tags<M: AudioMath>(tags: &mut TagMap, track: &TrackInfo, k: Seq<char>)
    requires
        call_ensures(describe_track::<M>, (tags, track), ()),
        old(tags).well_formed(),
    ensures
        final(tags)@.contains_key("codec"@) && final(tags)@["codec"@] == track.codec@,
        track.channels matches Some(n) ==> final(tags)@.contains_key("channels"@) && final(tags)@["channels"@]
            == crate::text::decimal(n as nat),
        track.sample_rate matches Some(n) ==> final(tags)@.contains_key("sample_rate"@) && final(
            tags)@["sample_rate"@] == crate::text::decimal(n as nat),
        track.n_frames matches Some(n) ==> final(tags)@.contains_key("frame_count"@) && final(tags)@["frame_count"@]
            == crate::text::decimal(n as nat),
        track.n_frames is Some && track.sample_rate is Some ==> exists|text: String| #[trigger]
            call_ensures(M::duration_text, (track.n_frames->0, track.sample_rate->0), text) && final(
                tags)@.contains_key("duration_seconds"@) && final(tags)@["duration_seconds"@] == text@,
        k != "codec"@ && k != "channels"@ && k != "sample_rate"@ && k != "frame_count"@ && k != "duration_seconds"@ ==> (
        final(tags)@.contains_key(k) <==> old(tags)@.contains_key(k)) && (old(tags)@.contains_key(k) ==> final(
            tags)@[k] == old(tags)@[k]),
{
    lemma_keys_differ();
    let base = old(tags)@;
    let map = final(tags)@;
    let duration = choose|duration: Seq<char>| #[trigger]
        crate::metadata::lasts::<M>(*track, duration) && map == crate::metadata::with_track(base, *track, duration);
    if track.n_frames is Some && track.sample_rate is Some {
        let text = choose|text: String| #[trigger]
            call_ensures(M::duration_text, (track.n_frames->0, track.sample_rate->0), text) && text@ == duration;
        assert(call_ensures(M::duration_text, (track.n_frames->0, track.sample_rate->0), text));
    }
}

/// An error turned into text says what it says otherwise.
pub proof fn error_turns_into_its_text(e: AudioError, r: String, same: String)
    requires
        call_ensures(<String as From<AudioError>>::from, (e,), r),
        call_ensures(AudioError::text, (&e,), same),
    ensures
        r@ == same@,
{
}

} // verus!
