//! The decisions of an SDK session: the start-up sequence and the registry
//! of the devices that the SDK has reported.
//!
//! The calls into the SDK itself are made by the caller, which hands each
//! outcome to the session and performs the action that comes back.

use vstd::prelude::*;
use std::collections::HashMap;
use vstd::std_specs::hash::spec_hash_map_iter;
use vstd::std_specs::iter::IteratorSpec;
use vstd::string::{StringExecFns, StringSliceAdditionalSpecFns};
use crate::device::{c_string_text, is_c_string_text, DeviceInfo, DeviceView};

verus! {

/// Where a session stands in the start-up sequence.
#[derive(Clone, Copy, Debug, PartialEq, Eq, Structural)]
pub enum Phase {
    /// The configuration path was accepted; the SDK is to be initialized.
    AwaitingInit,
    /// The SDK was initialized; it is to be started.
    AwaitingStart,
    /// The SDK runs.
    Running,
    /// Start-up failed; the SDK is not initialized.
    Failed,
    /// The SDK ran and was uninitialized.
    Stopped,
}

/// What the caller does next during start-up.
#[derive(Debug)]
pub enum StartupAction {
    /// Install the device-info handler, then start the SDK.
    InstallHandlerAndStart,
    /// Start-up is complete.
    Ready,
    /// Report the error; nothing is to be undone.
    Fail(String),
    /// Uninitialize the SDK, then report the error.
    UninitAndFail(String),
}

/// The handles of `s` increase strictly from one entry to the next.
pub open spec fn sorted_by_handle(s: Seq<DeviceInfo>) -> bool {
    forall|i: int, j: int| 0 <= i < j < s.len() ==> s[i].handle < s[j].handle
}

/// `s` lists the devices of `m`: each entry is the device that `m` holds
/// under its handle, and each handle of `m` has an entry.
pub open spec fn lists_registry(s: Seq<DeviceInfo>, m: Map<u32, DeviceView>) -> bool {
    &&& forall|i: int|
        0 <= i < s.len() ==> m.contains_key(#[trigger] s[i].handle) && m[s[i].handle] == s[i]@
    &&& forall|h: u32| m.contains_key(h) ==> exists|i: int| 0 <= i < s.len() && s[i].handle == h
}

/// The error of a configuration path with a NUL byte.
pub open spec fn nul_path_error() -> Seq<char> {
    "config path contains NUL"@
}

/// The error of a failed initialization.
pub open spec fn init_error() -> Seq<char> {
    "LivoxLidarSdkInit failed"@
}

/// The error of a failed start.
pub open spec fn start_error() -> Seq<char> {
    "LivoxLidarSdkStart failed"@
}

/// Phase after the SDK's initialization succeeded (`ok`) or failed.
pub open spec fn phase_after_init(ok: bool) -> Phase {
    if ok {
        Phase::AwaitingStart
    } else {
        Phase::Failed
    }
}

/// Phase after the SDK's start succeeded (`ok`) or failed.
pub open spec fn phase_after_start(ok: bool) -> Phase {
    if ok {
        Phase::Running
    } else {
        Phase::Failed
    }
}

/// The SDK is initialized and not yet uninitialized: from a successful
/// initialization until the uninitialization after a failed start or
/// after running.
pub open spec fn is_live(p: Phase) -> bool {
    p == Phase::AwaitingStart || p == Phase::Running
}

/// Phase after the session is stopped from `p`: a running SDK is
/// uninitialized; any other phase stays.
pub open spec fn phase_after_stop(p: Phase) -> Phase {
    if p == Phase::Running {
        Phase::Stopped
    } else {
        p
    }
}

/// Whether stopping the session from `p` uninitializes the SDK.
pub open spec fn stop_uninitializes(p: Phase) -> bool {
    p == Phase::Running
}

/// The error of a second initialization while the SDK is initialized.
pub open spec fn live_error() -> Seq<char> {
    "SDK already initialized"@
}

/// The SDK is never initialized twice and each initialization is undone
/// once: a new initialization is only taken from a phase where the SDK is
/// not initialized; every way out of an initialized SDK (a failed start, or
/// stopping a running session) asks for one uninitialization and leaves a
/// phase where the SDK is not initialized, from which stopping asks for
/// none.
pub proof fn lemma_lifecycle(p: Phase)
    ensures
        is_live(phase_after_init(true)),
        !is_live(phase_after_init(false)),
        is_live(phase_after_start(true)),
        !is_live(phase_after_start(false)),
        stop_uninitializes(p) ==> is_live(p) && !is_live(phase_after_stop(p)),
        !stop_uninitializes(phase_after_stop(p)),
        !is_live(p) ==> !is_live(phase_after_stop(p)),
{
}

/// A report's device carries the report's own handle and device type, and
/// the registry that a history ending in that report leaves holds it under
/// its handle, with that type.
pub proof fn lemma_report_keeps_handle_and_type(
    h: Seq<DeviceView>,
    handle: u32,
    dev_type: u8,
    sn: Seq<u8>,
    lidar_ip: Seq<u8>,
)
    ensures
        reported_device(handle, dev_type, sn, lidar_ip).handle == handle,
        reported_device(handle, dev_type, sn, lidar_ip).dev_type == dev_type,
        latest_reports(h.push(reported_device(handle, dev_type, sn, lidar_ip))).contains_key(handle),
        latest_reports(h.push(reported_device(handle, dev_type, sn, lidar_ip)))[handle].dev_type == dev_type,
        forall|k: u32|
            k != handle ==> #[trigger] latest_reports(h.push(reported_device(handle, dev_type, sn, lidar_ip))).contains_key(k)
                == latest_reports(h).contains_key(k),
{
    let h2 = h.push(reported_device(handle, dev_type, sn, lidar_ip));
    assert(h2.drop_last() =~= h);
}

/// A session runs only when both the initialization and the start of the
/// SDK succeeded; a failed initialization ends start-up, since a start is
/// only taken in the phase that a successful initialization leads to.
pub proof fn lemma_running_needs_init_and_start(init_ok: bool, start_ok: bool)
    ensures
        (phase_after_init(init_ok) == Phase::AwaitingStart && phase_after_start(start_ok) == Phase::Running)
            <==> (init_ok && start_ok),
        !init_ok ==> phase_after_init(init_ok) != Phase::AwaitingStart,
        phase_after_init(init_ok) != Phase::Running,
{
}

/// `snap` shows what the history of reports `h` left: each entry is the
/// last report made under its handle, and every reported handle has an
/// entry.
pub open spec fn shows_latest_reports(snap: Seq<DeviceInfo>, h: Seq<DeviceView>) -> bool {
    &&& forall|i: int|
        #![trigger snap[i]]
        0 <= i < snap.len() ==> exists|k: int|
            0 <= k < h.len() && h[k] == snap[i]@ && forall|j: int| k < j < h.len() ==> h[j].handle != snap[i].handle
    &&& forall|k: int| 0 <= k < h.len() ==> exists|i: int| 0 <= i < snap.len() && snap[i].handle == #[trigger] h[k].handle
}

/// The device that an info-change report describes.
pub open spec fn reported_device(handle: u32, dev_type: u8, sn: Seq<u8>, lidar_ip: Seq<u8>) -> DeviceView {
    DeviceView { handle, dev_type, sn: c_string_text(sn), lidar_ip: c_string_text(lidar_ip) }
}

/// Whether the path's bytes hold a NUL.
fn has_nul(path: &str) -> (r: bool)
    ensures
        r == path.spec_bytes().contains(0u8),
{
    let bytes = path.as_bytes();
    let mut i: usize = 0;
    while i < bytes.len()
        invariant
            i <= bytes@.len(),
            bytes@ == path.spec_bytes(),
            forall|j: int| 0 <= j < i ==> bytes@[j] != 0,
        decreases bytes@.len() - i,
    {
        if bytes[i] == 0 {
            assert(path.spec_bytes()[i as int] == 0u8);
            return true;
        }
        i = i + 1;
    }
    false
}

/// The registry that a history of device reports leaves: each reported
/// handle with its latest report.
pub open spec fn latest_reports(h: Seq<DeviceView>) -> Map<u32, DeviceView>
    decreases h.len(),
{
    if h.len() == 0 {
        Map::empty()
    } else {
        latest_reports(h.drop_last()).insert(h.last().handle, h.last())
    }
}

/// The map holds, under each handle of the registry, that handle's device.
pub open spec fn map_holds_registry(m: Map<u32, DeviceInfo>, reg: Map<u32, DeviceView>) -> bool {
    &&& forall|k: u32| #[trigger] m.contains_key(k) <==> reg.contains_key(k)
    &&& forall|k: u32| #[trigger] m.contains_key(k) ==> m[k]@ == reg[k] && m[k].handle == k
}

/// Each device of the registry that a history leaves sits under its own
/// handle.
proof fn lemma_latest_handles(h: Seq<DeviceView>)
    ensures
        forall|k: u32| #[trigger] latest_reports(h).contains_key(k) ==> latest_reports(h)[k].handle == k,
{
    lemma_latest_reports(h);
}


/// Puts `stored` into a listing sorted by handle: it replaces the entry
/// with its handle, or goes in where the order puts it.
fn insert_sorted(devs: &mut Vec<DeviceInfo>, stored: DeviceInfo, Ghost(old_registry): Ghost<Map<u32, DeviceView>>)
    requires
        sorted_by_handle(old(devs)@),
        lists_registry(old(devs)@, old_registry),
    ensures
        sorted_by_handle(final(devs)@),
        lists_registry(final(devs)@, old_registry.insert(stored.handle, stored@)),
{
    let handle = stored.handle;
    let ghost before = devs@;
    let mut i: usize = 0;
    while i < devs.len() && devs[i].handle < handle
        invariant
            devs@ == before,
            i <= devs@.len(),
            forall|j: int| 0 <= j < i ==> devs@[j].handle < handle,
        decreases devs@.len() - i,
    {
        i = i + 1;
    }
    let ghost registry = old_registry.insert(handle, stored@);
    if i < devs.len() && devs[i].handle == handle {
        devs[i] = stored;
        proof {
            assert(devs@ == before.update(i as int, stored));
            assert forall|h: u32| registry.contains_key(h) implies exists|k: int|
                0 <= k < devs@.len() && devs@[k].handle == h by {
                if h == handle {
                    assert(devs@[i as int].handle == h);
                } else {
                    let k = choose|k: int| 0 <= k < before.len() && before[k].handle == h;
                    assert(devs@[k].handle == h);
                }
            }
            assert forall|j: int| 0 <= j < devs@.len() implies registry.contains_key(
                #[trigger] devs@[j].handle,
            ) && registry[devs@[j].handle] == devs@[j]@ by {
                if j != i {
                    assert(devs@[j] == before[j]);
                    assert(old_registry.contains_key(before[j].handle));
                    assert(before[j].handle != handle);
                }
            }
        }
    } else {
        devs.insert(i, stored);
        proof {
            assert(devs@ == before.insert(i as int, stored));
            assert forall|a: int, b: int| 0 <= a < b < devs@.len() implies devs@[a].handle
                < devs@[b].handle by {
                if b < i {
                    assert(devs@[a] == before[a] && devs@[b] == before[b]);
                } else if b == i {
                    assert(devs@[a] == before[a]);
                } else if a < i {
                    assert(devs@[a] == before[a] && devs@[b] == before[b - 1]);
                    assert(before[i as int].handle > handle);
                } else if a == i {
                    assert(devs@[b] == before[b - 1]);
                    assert(before[i as int].handle > handle);
                    assert(i == b - 1 || before[i as int].handle < before[b - 1].handle);
                } else {
                    assert(devs@[a] == before[a - 1] && devs@[b] == before[b - 1]);
                }
            }
            assert forall|h: u32| registry.contains_key(h) implies exists|k: int|
                0 <= k < devs@.len() && devs@[k].handle == h by {
                if h == handle {
                    assert(devs@[i as int].handle == h);
                } else {
                    let k = choose|k: int| 0 <= k < before.len() && before[k].handle == h;
                    if k < i {
                        assert(devs@[k].handle == h);
                    } else {
                        assert(devs@[k + 1].handle == h);
                    }
                }
            }
            assert forall|j: int| 0 <= j < devs@.len() implies registry.contains_key(
                #[trigger] devs@[j].handle,
            ) && registry[devs@[j].handle] == devs@[j]@ by {
                if j < i {
                    assert(devs@[j] == before[j]);
                    assert(old_registry.contains_key(before[j].handle));
                } else if j > i {
                    assert(devs@[j] == before[j - 1]);
                    assert(old_registry.contains_key(before[j - 1].handle));
                    assert(before[i as int].handle > handle);
                }
            }
        }
    }
}

/// Library-side state of an SDK session: its start-up phase, every device
/// the SDK has reported, by handle, and the user's device-change callback
/// of type `C`, if one is registered.
pub struct Sdk<C> {
    phase: Phase,
    devices: HashMap<u32, DeviceInfo>,
    history: Ghost<Seq<DeviceView>>,
    on_device_change: Option<C>,
}

impl<C> Sdk<C> {
    #[verifier::type_invariant]
    closed spec fn wf(self) -> bool {
        &&& map_holds_registry(self.devices@, latest_reports(self.history@))
    }

    /// The session's start-up phase.
    pub closed spec fn phase(&self) -> Phase {
        self.phase
    }

    /// Every device report the session has recorded, oldest first.
    pub closed spec fn reports(&self) -> Seq<DeviceView> {
        self.history@
    }

    /// The devices reported so far, each handle with its latest report.
    pub open spec fn registry(&self) -> Map<u32, DeviceView> {
        latest_reports(self.reports())
    }

    /// The registered device-change callback.
    pub closed spec fn device_change_callback(&self) -> Option<C> {
        self.on_device_change
    }

    /// Opens a session for the configuration file at `config_path`. Fails
    /// when the path holds a NUL byte, which no C path can carry.
    pub fn new(config_path: &str) -> (r: Result<Sdk<C>, String>)
        ensures
            r is Err <==> config_path.spec_bytes().contains(0u8),
            r matches Err(e) ==> e@ == nul_path_error(),
            r matches Ok(s) ==> {
                &&& s.phase() == Phase::AwaitingInit
                &&& s.reports() == Seq::<DeviceView>::empty()
                &&& s.device_change_callback() is None
            },
    {
        if has_nul(config_path) {
            return Err(String::from_str("config path contains NUL"));
        }
        let s = Sdk { phase: Phase::AwaitingInit, devices: HashMap::new(), history: Ghost(Seq::empty()), on_device_change: None };
        assert(s.registry() =~= Map::<u32, DeviceView>::empty());
        Ok(s)
    }

    /// Opens the session again, for the configuration file at
    /// `config_path`: the devices reported so far and the registered
    /// device-change callback stay. Fails, changing nothing, while the SDK
    /// is initialized (so that it is never initialized twice) or when the
    /// path holds a NUL byte.
    pub fn reopen(&mut self, config_path: &str) -> (r: Result<(), String>)
        ensures
            r is Err <==> is_live(old(self).phase()) || config_path.spec_bytes().contains(0u8),
            r matches Err(e) ==> final(self).phase() == old(self).phase() && e@ == (if is_live(
                old(self).phase(),
            ) {
                live_error()
            } else {
                nul_path_error()
            }),
            r is Ok ==> final(self).phase() == Phase::AwaitingInit,
            final(self).reports() == old(self).reports(),
            final(self).device_change_callback() == old(self).device_change_callback(),
    {
        proof {
            use_type_invariant(&*self);
        }
        if self.phase == Phase::AwaitingStart || self.phase == Phase::Running {
            return Err(String::from_str("SDK already initialized"));
        }
        if has_nul(config_path) {
            return Err(String::from_str("config path contains NUL"));
        }
        self.phase = Phase::AwaitingInit;
        Ok(())
    }

    /// Stops the session; returns whether the SDK is to be uninitialized,
    /// which is when it runs. Stopping again asks for nothing.
    pub fn stop(&mut self) -> (uninit: bool)
        ensures
            uninit == stop_uninitializes(old(self).phase()),
            final(self).phase() == phase_after_stop(old(self).phase()),
            final(self).reports() == old(self).reports(),
            final(self).device_change_callback() == old(self).device_change_callback(),
    {
        proof {
            use_type_invariant(&*self);
        }
        if self.phase == Phase::Running {
            self.phase = Phase::Stopped;
            true
        } else {
            false
        }
    }

    /// The session's start-up phase.
    pub fn startup_phase(&self) -> (p: Phase)
        ensures
            p == self.phase(),
    {
        self.phase
    }

    /// Takes the outcome of the SDK's initialization.
    pub fn init_finished(&mut self, ok: bool) -> (a: StartupAction)
        requires
            old(self).phase() == Phase::AwaitingInit,
        ensures
            final(self).reports() == old(self).reports(),
            final(self).device_change_callback() == old(self).device_change_callback(),
            final(self).phase() == phase_after_init(ok),
            ok ==> a is InstallHandlerAndStart,
            !ok ==> (a matches StartupAction::Fail(e) && e@ == init_error()),
    {
        proof {
            use_type_invariant(&*self);
        }
        if ok {
            self.phase = Phase::AwaitingStart;
            StartupAction::InstallHandlerAndStart
        } else {
            self.phase = Phase::Failed;
            StartupAction::Fail(String::from_str("LivoxLidarSdkInit failed"))
        }
    }

    /// Takes the outcome of the SDK's start.
    pub fn start_finished(&mut self, ok: bool) -> (a: StartupAction)
        requires
            old(self).phase() == Phase::AwaitingStart,
        ensures
            final(self).reports() == old(self).reports(),
            final(self).device_change_callback() == old(self).device_change_callback(),
            final(self).phase() == phase_after_start(ok),
            ok ==> a is Ready,
            !ok ==> (a matches StartupAction::UninitAndFail(e) && e@ == start_error()),
    {
        proof {
            use_type_invariant(&*self);
        }
        if ok {
            self.phase = Phase::Running;
            StartupAction::Ready
        } else {
            self.phase = Phase::Failed;
            StartupAction::UninitAndFail(String::from_str("LivoxLidarSdkStart failed"))
        }
    }

    /// Records an info-change report of the device `handle` (with `sn` and
    /// `lidar_ip` the SDK's NUL-terminated character arrays) and returns the
    /// device, to be handed to the user's device-change callback.
    pub fn device_info_changed(&mut self, handle: u32, dev_type: u8, sn: &[u8], lidar_ip: &[u8]) -> (d: DeviceInfo)
        ensures
            d@ == reported_device(handle, dev_type, sn@, lidar_ip@),
            d.handle == handle,
            d.dev_type == dev_type,
            final(self).registry().contains_key(handle),
            final(self).registry()[handle].dev_type == dev_type,
            is_c_string_text(d.sn@, sn@),
            is_c_string_text(d.lidar_ip@, lidar_ip@),
            final(self).reports() == old(self).reports().push(d@),
            final(self).registry() == old(self).registry().insert(handle, d@),
            final(self).phase() == old(self).phase(),
            final(self).device_change_callback() == old(self).device_change_callback(),
    {
        let d = DeviceInfo::from_raw(handle, dev_type, sn, lidar_ip);
        let stored = d.clone();
        let mut old_sdk: Sdk<C> = Sdk {
            phase: self.phase,
            devices: HashMap::new(),
            history: Ghost(Seq::empty()),
            on_device_change: None,
        };
        std::mem::swap(self, &mut old_sdk);
        proof {
            use_type_invariant(&old_sdk);
        }
        let phase = old_sdk.phase;
        let ghost old_history = old_sdk.history@;
        let mut devs = old_sdk.devices;
        devs.insert(handle, stored);
        let ghost history = old_history.push(d@);
        proof {
            assert(history.drop_last() =~= old_history);
            lemma_latest_handles(history);
        }
        *self = Sdk { phase, devices: devs, history: Ghost(history), on_device_change: old_sdk.on_device_change };
        d
    }

    /// Registers the callback to invoke whenever a device connects or its
    /// info changes; it replaces the one registered before.
    pub fn set_device_change_callback(&mut self, f: C)
        ensures
            final(self).device_change_callback() == Some(f),
            final(self).reports() == old(self).reports(),
            final(self).phase() == old(self).phase(),
    {
        proof {
            use_type_invariant(&*self);
        }
        self.on_device_change = Some(f);
    }

    /// The registered device-change callback, for the caller to invoke
    /// with a reported device.
    pub fn registered_device_change_callback(&self) -> (r: &Option<C>)
        ensures
            *r == self.device_change_callback(),
    {
        &self.on_device_change
    }

    /// Snapshot of all devices the SDK has reported, in increasing order of
    /// handle, each in its latest reported state.
    pub fn devices(&self) -> (r: Vec<DeviceInfo>)
        ensures
            sorted_by_handle(r@),
            lists_registry(r@, self.registry()),
            shows_latest_reports(r@, self.reports()),
    {
        proof {
            use_type_invariant(self);
        }
        let ghost reg = self.registry();
        let mut out: Vec<DeviceInfo> = Vec::new();
        let ghost mut seen: Map<u32, DeviceView> = Map::empty();
        let ghost items = spec_hash_map_iter(&self.devices).remaining();
        let ghost mut count: int = 0;
        for entry in it: self.devices.iter()
            invariant
                reg == self.registry(),
                map_holds_registry(self.devices@, reg),
                it.seq() == items,
                count == it.index(),
                sorted_by_handle(out@),
                lists_registry(out@, seen),
                forall|h: u32| #[trigger] seen.contains_key(h) ==> reg.contains_key(h) && seen[h] == reg[h],
                forall|j: int| 0 <= j < it.index() ==> seen.contains_key(*#[trigger] it.seq()[j].0),
        {
            let (k, v) = entry;
            proof {
                assert(self.devices@.contains_key(*k) && self.devices@[*k] == *v);
            }
            let d = v.clone();
            insert_sorted(&mut out, d, Ghost(seen));
            proof {
                seen = seen.insert(d.handle, d@);
                count = count + 1;
            }
        }
        proof {
            assert(count == items.len());
            assert forall|h: u32| reg.contains_key(h) implies seen.contains_key(h) by {
                assert(self.devices@.contains_key(h));
                let e = choose|j: int| 0 <= j < items.len() && items[j] == (&h, &self.devices@[h]);
                assert(seen.contains_key(*items[e].0));
            }
            assert(seen =~= reg);
            lemma_snapshot_of_history(out@, self.reports());
        }
        out
    }
}


/// In a listing sorted by handle, the first entry has the smallest handle
/// of the registry.
proof fn lemma_first_is_least(s: Seq<DeviceInfo>, m: Map<u32, DeviceView>, h: u32)
    requires
        sorted_by_handle(s),
        lists_registry(s, m),
        m.contains_key(h),
    ensures
        s.len() > 0,
        s[0].handle <= h,
{
    let k = choose|k: int| 0 <= k < s.len() && s[k].handle == h;
    if k > 0 {
        assert(s[0].handle < s[k].handle);
    }
}

/// The device snapshot is determined by the registry: two listings sorted
/// by handle of the same registry hold the same devices in the same order.
pub proof fn lemma_snapshot_unique(s1: Seq<DeviceInfo>, s2: Seq<DeviceInfo>, m: Map<u32, DeviceView>)
    requires
        sorted_by_handle(s1),
        lists_registry(s1, m),
        sorted_by_handle(s2),
        lists_registry(s2, m),
    ensures
        s1.len() == s2.len(),
        forall|i: int| 0 <= i < s1.len() ==> #[trigger] s1[i]@ == s2[i]@,
    decreases s1.len(),
{
    if s1.len() == 0 {
        if s2.len() > 0 {
            assert(m.contains_key(s2[0].handle));
            lemma_first_is_least(s1, m, s2[0].handle);
        }
    } else {
        let h = s1[0].handle;
        assert(m.contains_key(h));
        lemma_first_is_least(s2, m, h);
        assert(m.contains_key(s2[0].handle));
        lemma_first_is_least(s1, m, s2[0].handle);
        assert(s2[0].handle == h);
        let m2 = m.remove(h);
        let t1 = s1.drop_first();
        let t2 = s2.drop_first();
        lemma_rest_lists(s1, m);
        lemma_rest_lists(s2, m);
        lemma_snapshot_unique(t1, t2, m2);
        assert forall|i: int| 0 <= i < s1.len() implies #[trigger] s1[i]@ == s2[i]@ by {
            if i > 0 {
                assert(t1[i - 1]@ == t2[i - 1]@);
            }
        }
    }
}

/// Dropping the first entry of a sorted listing lists the registry without
/// that entry's handle.
proof fn lemma_rest_lists(s: Seq<DeviceInfo>, m: Map<u32, DeviceView>)
    requires
        s.len() > 0,
        sorted_by_handle(s),
        lists_registry(s, m),
    ensures
        sorted_by_handle(s.drop_first()),
        lists_registry(s.drop_first(), m.remove(s[0].handle)),
{
    let t = s.drop_first();
    let m2 = m.remove(s[0].handle);
    assert forall|i: int| 0 <= i < t.len() implies m2.contains_key(#[trigger] t[i].handle) && m2[t[i].handle]
        == t[i]@ by {
        assert(t[i] == s[i + 1]);
        assert(s[0].handle < s[i + 1].handle);
    }
    assert forall|h: u32| m2.contains_key(h) implies exists|i: int| 0 <= i < t.len() && t[i].handle == h by {
        let k = choose|k: int| 0 <= k < s.len() && s[k].handle == h;
        assert(k != 0);
        assert(t[k - 1].handle == h);
    }
}

/// After a device reports, the snapshot holds it once, in its reported
/// state, and every other entry is the device as it was before the report.
pub proof fn lemma_snapshot_after_report(before: Map<u32, DeviceView>, d: DeviceView, snap: Seq<DeviceInfo>)
    requires
        sorted_by_handle(snap),
        lists_registry(snap, before.insert(d.handle, d)),
    ensures
        exists|i: int| 0 <= i < snap.len() && #[trigger] snap[i]@ == d,
        forall|i: int, j: int|
            0 <= i < snap.len() && 0 <= j < snap.len() && snap[i].handle == d.handle && snap[j].handle
                == d.handle ==> i == j,
        forall|i: int|
            0 <= i < snap.len() && snap[i].handle != d.handle ==> before.contains_key(
                #[trigger] snap[i].handle,
            ) && before[snap[i].handle] == snap[i]@,
{
    let after = before.insert(d.handle, d);
    assert(after.contains_key(d.handle));
    let k = choose|k: int| 0 <= k < snap.len() && snap[k].handle == d.handle;
    assert(after.contains_key(snap[k].handle));
    assert(snap[k]@ == d);
    assert forall|i: int, j: int|
        0 <= i < snap.len() && 0 <= j < snap.len() && snap[i].handle == d.handle && snap[j].handle
            == d.handle implies i == j by {
        if i < j {
            assert(snap[i].handle < snap[j].handle);
        } else if j < i {
            assert(snap[j].handle < snap[i].handle);
        }
    }
}


/// What a history of reports leaves in the registry: exactly the reported
/// handles, each with the last report made under it.
pub proof fn lemma_latest_reports(h: Seq<DeviceView>)
    ensures
        forall|k: u32| latest_reports(h).contains_key(k) <==> exists|i: int| 0 <= i < h.len() && h[i].handle == k,
        forall|k: u32|
            latest_reports(h).contains_key(k) ==> exists|i: int|
                0 <= i < h.len() && h[i].handle == k && latest_reports(h)[k] == h[i] && forall|j: int|
                    i < j < h.len() ==> h[j].handle != k,
    decreases h.len(),
{
    if h.len() > 0 {
        let t = h.drop_last();
        lemma_latest_reports(t);
        let m = latest_reports(h);
        assert(m == latest_reports(t).insert(h.last().handle, h.last()));
        assert forall|k: u32| m.contains_key(k) <==> exists|i: int| 0 <= i < h.len() && h[i].handle == k by {
            if m.contains_key(k) && k != h.last().handle {
                assert(latest_reports(t).contains_key(k));
                let i = choose|i: int| 0 <= i < t.len() && t[i].handle == k;
                assert(h[i].handle == k);
            }
            if m.contains_key(k) && k == h.last().handle {
                assert(h[h.len() - 1].handle == k);
            }
            if exists|i: int| 0 <= i < h.len() && h[i].handle == k {
                let i = choose|i: int| 0 <= i < h.len() && h[i].handle == k;
                if i < h.len() - 1 {
                    assert(t[i].handle == k);
                }
            }
        }
        assert forall|k: u32| m.contains_key(k) implies exists|i: int|
            0 <= i < h.len() && h[i].handle == k && m[k] == h[i] && forall|j: int| i < j < h.len() ==> h[j].handle != k by {
            if k == h.last().handle {
                assert(m[k] == h[h.len() - 1]);
            } else {
                assert(latest_reports(t).contains_key(k));
                let i = choose|i: int|
                    0 <= i < t.len() && t[i].handle == k && latest_reports(t)[k] == t[i] && forall|j: int|
                        i < j < t.len() ==> t[j].handle != k;
                assert(h[i] == t[i]);
                assert forall|j: int| i < j < h.len() implies h[j].handle != k by {
                    if j < h.len() - 1 {
                        assert(h[j] == t[j]);
                    }
                }
            }
        }
    }
}

/// The device snapshot after a history of reports: each entry is the last
/// report of its handle, every reported handle has an entry, and no other
/// device appears.
pub proof fn lemma_snapshot_of_history(snap: Seq<DeviceInfo>, h: Seq<DeviceView>)
    requires
        lists_registry(snap, latest_reports(h)),
    ensures
        shows_latest_reports(snap, h),
{
    lemma_latest_reports(h);
    let m = latest_reports(h);
    assert forall|i: int| #![trigger snap[i]] 0 <= i < snap.len() implies exists|k: int|
        0 <= k < h.len() && h[k] == snap[i]@ && forall|j: int| k < j < h.len() ==> h[j].handle != snap[i].handle by {
        assert(m.contains_key(snap[i].handle));
    }
    assert forall|k: int| 0 <= k < h.len() implies exists|i: int| 0 <= i < snap.len() && snap[i].handle == #[trigger] h[k].handle by {
        assert(m.contains_key(h[k].handle));
    }
}

/// Reported devices stay: later reports replace a handle's entry but never
/// remove one.
pub proof fn lemma_reported_handles_persist(h: Seq<DeviceView>, later: Seq<DeviceView>)
    ensures
        forall|k: u32| latest_reports(h).contains_key(k) ==> #[trigger] latest_reports(h + later).contains_key(k),
{
    lemma_latest_reports(h);
    lemma_latest_reports(h + later);
    assert forall|k: u32| latest_reports(h).contains_key(k) implies #[trigger] latest_reports(h + later).contains_key(k) by {
        let i = choose|i: int| 0 <= i < h.len() && h[i].handle == k;
        assert((h + later)[i].handle == k);
    }
}

} // verus!
