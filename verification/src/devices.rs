use vstd::prelude::*;
use crate::device::{
    Device, DeviceKey, DeviceKeyView, DeviceSceneState, DeviceSceneStateView, DeviceStateView,
    DeviceView, IntegrationId, SceneId,
};
use crate::group::GroupConfig;
use crate::group::GroupId;
use crate::group::Groups;
use crate::message::{Message, MessageView};
use crate::scene::{
    apply_scene_state, apply_scene_state_exec, find_scene, scene_state_for_key, SceneConfig,
    SceneDeviceState, Scenes,
};

verus! {

/// First index of the device with the given key, or -1.
pub open spec fn find_device(s: Seq<DeviceView>, key: DeviceKeyView) -> int
    decreases s.len(),
{
    if s.len() == 0 {
        -1
    } else if s[0].key() == key {
        0
    } else {
        let r = find_device(s.drop_first(), key);
        if r < 0 {
            -1
        } else {
            r + 1
        }
    }
}

/// `find_device` returns the first matching index, or -1 when no record
/// matches.
pub proof fn lemma_find_device_props(s: Seq<DeviceView>, key: DeviceKeyView)
    ensures
        find_device(s, key) >= 0 ==> {
            &&& find_device(s, key) < s.len()
            &&& s[find_device(s, key)].key() == key
            &&& forall|j: int| 0 <= j < find_device(s, key) ==> s[j].key() != key
        },
        find_device(s, key) < 0 ==> forall|j: int| 0 <= j < s.len() ==> s[j].key() != key,
    decreases s.len(),
{
    if s.len() > 0 && s[0].key() != key {
        lemma_find_device_props(s.drop_first(), key);
        let fd = find_device(s.drop_first(), key);
        if fd >= 0 {
            assert(s[fd + 1] == s.drop_first()[fd]);
            assert forall|j: int| 0 <= j < fd + 1 implies s[j].key() != key by {
                if j > 0 {
                    assert(s[j] == s.drop_first()[j - 1]);
                }
            }
        } else {
            assert forall|j: int| 0 <= j < s.len() implies s[j].key() != key by {
                if j > 0 {
                    assert(s[j] == s.drop_first()[j - 1]);
                }
            }
        }
    }
}

/// Key uniqueness: no two records in the registry share a device key.
pub open spec fn keys_unique(s: Seq<DeviceView>) -> bool {
    forall|i: int, j: int| 0 <= i < j < s.len() ==> s[i].key() != s[j].key()
}

/// Whether a reported state is consistent with the demand of the scene
/// recorded in a device's scene reference: it is unless the scene is
/// defined, targets the device, and its demand applied to the reported
/// state would change it. An unknown scene, or one that does not target
/// the device, leaves the reference undisturbed.
pub open spec fn scene_consistent(
    scenes: Seq<(SceneId, SceneConfig)>,
    gc: Seq<(GroupId, GroupConfig)>,
    registered: Seq<Seq<char>>,
    kn: Seq<DeviceView>,
    sr: DeviceSceneStateView,
    key: DeviceKeyView,
    state: DeviceStateView,
) -> bool {
    let si = find_scene(scenes, sr.scene_id);
    if si < 0 {
        true
    } else {
        match scene_state_for_key(scenes[si].1@, gc, registered, kn, key) {
            Some(ss) => apply_scene_state(ss, state) == state,
            None => true,
        }
    }
}

/// The registry transition for one integration refresh report. An unknown
/// key inserts the record and announces it; a known key with an unchanged
/// state does nothing; a changed state replaces the stored state, clears
/// the scene reference if the report is inconsistent with that scene's
/// demand (a manual override), and announces the transition.
pub open spec fn refresh_transition(
    devices: Seq<DeviceView>,
    d: DeviceView,
    scenes: Seq<(SceneId, SceneConfig)>,
    gc: Seq<(GroupId, GroupConfig)>,
    registered: Seq<Seq<char>>,
) -> (Seq<DeviceView>, Seq<MessageView>) {
    let i = find_device(devices, d.key());
    if i < 0 {
        (
            devices.push(d),
            seq![
                MessageView::DeviceUpdate {
                    old_state: None,
                    new_state: d.state,
                    old: None,
                    new: d,
                },
            ],
        )
    } else {
        let cur = devices[i];
        if cur.state == d.state {
            (devices, Seq::empty())
        } else {
            let kept = match cur.scene {
                None => None,
                Some(sr) => if scene_consistent(
                    scenes,
                    gc,
                    registered,
                    devices,
                    sr,
                    cur.key(),
                    d.state,
                ) {
                    Some(sr)
                } else {
                    None
                },
            };
            let upd = DeviceView { scene: kept, state: d.state, ..cur };
            (
                devices.update(i, upd),
                seq![
                    MessageView::DeviceUpdate {
                        old_state: Some(cur.state),
                        new_state: d.state,
                        old: Some(cur),
                        new: upd,
                    },
                ],
            )
        }
    }
}

/// The registry transition for one intent write. Sensors are read-only and
/// never targets: the request is dropped. Otherwise the record is stored
/// optimistically (inserted if unknown), its scene reference kept only when
/// the write originates from scene activation, and the owning integration
/// is asked to perform the physical write.
pub open spec fn set_state_transition(devices: Seq<DeviceView>, d: DeviceView, set_scene: bool) -> (
    Seq<DeviceView>,
    Seq<MessageView>,
) {
    if d.state.is_sensor() {
        (devices, Seq::empty())
    } else {
        let record = DeviceView {
            scene: if set_scene {
                d.scene
            } else {
                None
            },
            ..d
        };
        let i = find_device(devices, d.key());
        let devices2 = if i < 0 {
            devices.push(record)
        } else {
            devices.update(i, record)
        };
        (devices2, seq![MessageView::SetIntegrationDeviceState { device: record }])
    }
}

/// The record scene activation produces for one registry entry: `None` when
/// the scene does not target the device or the device is a sensor, else the
/// device with the scene's demand applied and its scene reference set.
pub open spec fn scene_target_of(
    scenes: Seq<(SceneId, SceneConfig)>,
    si: int,
    gc: Seq<(GroupId, GroupConfig)>,
    registered: Seq<Seq<char>>,
    kn: Seq<DeviceView>,
    dv: DeviceView,
    scene_id: Seq<char>,
    time: u64,
) -> Option<DeviceView> {
    if dv.state.is_sensor() {
        None
    } else {
        match scene_state_for_key(scenes[si].1@, gc, registered, kn, dv.key()) {
            Some(ss) => Some(
                DeviceView {
                    scene: Some(DeviceSceneStateView { scene_id, activation_time: time }),
                    state: apply_scene_state(ss, dv.state),
                    ..dv
                },
            ),
            None => None,
        }
    }
}

/// The write requests scene activation emits, in registry order, one per
/// targeted device from index `i` on.
pub open spec fn activate_messages(
    devices: Seq<DeviceView>,
    scenes: Seq<(SceneId, SceneConfig)>,
    si: int,
    gc: Seq<(GroupId, GroupConfig)>,
    registered: Seq<Seq<char>>,
    scene_id: Seq<char>,
    time: u64,
    i: int,
) -> Seq<MessageView>
    decreases devices.len() - i,
{
    if i < 0 || i >= devices.len() {
        Seq::empty()
    } else {
        let rest = activate_messages(
            devices,
            scenes,
            si,
            gc,
            registered,
            scene_id,
            time,
            i + 1,
        );
        match scene_target_of(scenes, si, gc, registered, devices, devices[i], scene_id, time) {
            Some(t) => seq![MessageView::SetIntegrationDeviceState { device: t }] + rest,
            None => rest,
        }
    }
}

/// The registry transition for activating a scene: an unknown scene does
/// nothing; otherwise every targeted, present, non-sensor record takes the
/// scene's demand and scene reference, in registry order, with one write
/// request per targeted device. Targeted keys absent from the registry are
/// skipped.
pub open spec fn activate_transition(
    devices: Seq<DeviceView>,
    scene_id: Seq<char>,
    time: u64,
    scenes: Seq<(SceneId, SceneConfig)>,
    gc: Seq<(GroupId, GroupConfig)>,
    registered: Seq<Seq<char>>,
) -> (Seq<DeviceView>, Seq<MessageView>) {
    let si = find_scene(scenes, scene_id);
    if si < 0 {
        (devices, Seq::empty())
    } else {
        (
            Seq::new(
                devices.len(),
                |i: int|
                    match scene_target_of(
                        scenes,
                        si,
                        gc,
                        registered,
                        devices,
                        devices[i],
                        scene_id,
                        time,
                    ) {
                        Some(t) => t,
                        None => devices[i],
                    },
            ),
            activate_messages(devices, scenes, si, gc, registered, scene_id, time, 0),
        )
    }
}

/// Whether the given record is controlled by the named scene.
pub open spec fn scene_device_active(dv: DeviceView, sid: Seq<char>) -> bool {
    match dv.scene {
        Some(sr) => sr.scene_id == sid,
        None => false,
    }
}

/// Whether any record in the registry is controlled by the named scene.
pub open spec fn scene_active(devices: Seq<DeviceView>, sid: Seq<char>) -> bool {
    exists|i: int| 0 <= i < devices.len() && scene_device_active(devices[i], sid)
}

/// First index in the cycle order of a scene that is currently active, or
/// -1 when none is.
pub open spec fn find_active_scene(scene_ids: Seq<Seq<char>>, devices: Seq<DeviceView>) -> int
    decreases scene_ids.len(),
{
    if scene_ids.len() == 0 {
        -1
    } else if scene_active(devices, scene_ids[0]) {
        0
    } else {
        let r = find_active_scene(scene_ids.drop_first(), devices);
        if r < 0 {
            -1
        } else {
            r + 1
        }
    }
}

/// `find_active_scene` returns the first active index, or -1 when no scene
/// in the list is active.
pub proof fn lemma_find_active_scene_props(scene_ids: Seq<Seq<char>>, devices: Seq<DeviceView>)
    ensures
        find_active_scene(scene_ids, devices) >= 0 ==> {
            &&& find_active_scene(scene_ids, devices) < scene_ids.len()
            &&& scene_active(devices, scene_ids[find_active_scene(scene_ids, devices)])
            &&& forall|j: int|
                0 <= j < find_active_scene(scene_ids, devices) ==> !scene_active(
                    devices,
                    scene_ids[j],
                )
        },
        find_active_scene(scene_ids, devices) < 0 ==> forall|j: int|
            0 <= j < scene_ids.len() ==> !scene_active(devices, scene_ids[j]),
    decreases scene_ids.len(),
{
    if scene_ids.len() > 0 && !scene_active(devices, scene_ids[0]) {
        lemma_find_active_scene_props(scene_ids.drop_first(), devices);
        let fd = find_active_scene(scene_ids.drop_first(), devices);
        if fd >= 0 {
            assert(scene_ids[fd + 1] == scene_ids.drop_first()[fd]);
            assert forall|j: int| 0 <= j < fd + 1 implies !scene_active(
                devices,
                scene_ids[j],
            ) by {
                if j > 0 {
                    assert(scene_ids[j] == scene_ids.drop_first()[j - 1]);
                }
            }
        } else {
            assert forall|j: int| 0 <= j < scene_ids.len() implies !scene_active(
                devices,
                scene_ids[j],
            ) by {
                if j > 0 {
                    assert(scene_ids[j] == scene_ids.drop_first()[j - 1]);
                }
            }
        }
    }
}

/// The scene a cycle request activates: the first scene when none in the
/// list is active, the successor (wrapping) of the first active one
/// otherwise, and nothing for an empty list.
pub open spec fn next_scene(scene_ids: Seq<Seq<char>>, devices: Seq<DeviceView>) -> Option<
    Seq<char>,
> {
    if scene_ids.len() == 0 {
        None
    } else {
        let i = find_active_scene(scene_ids, devices);
        if i < 0 {
            Some(scene_ids[0])
        } else {
            Some(scene_ids[(i + 1) % (scene_ids.len() as int)])
        }
    }
}

/// The canonical device registry: the reconciliation authority over the
/// last known record per device key.
pub struct Devices {
    pub devices: Vec<Device>,
}

impl Devices {
    /// Well-formedness: device keys are unique across the registry.
    pub open spec fn wf(self) -> bool {
        keys_unique(self.devices.deep_view())
    }

    pub fn new() -> (r: Devices)
        ensures
            r.devices@.len() == 0,
            r.wf(),
    {
        Devices { devices: Vec::new() }
    }

    /// Finds the index of the record with the given key.
    pub fn find_device_index(&self, key: &DeviceKey) -> (r: Option<usize>)
        ensures
            match r {
                Some(i) => find_device(self.devices.deep_view(), key@) == i as int,
                None => find_device(self.devices.deep_view(), key@) < 0,
            },
    {
        let ghost s = self.devices.deep_view();
        proof {
            lemma_find_device_props(s, key@);
        }
        let mut i: usize = 0;
        while i < self.devices.len()
            invariant
                i <= self.devices.len(),
                s == self.devices.deep_view(),
                forall|j: int| 0 <= j < i ==> s[j].key() != key@,
            decreases self.devices.len() - i,
        {
            let k = self.devices[i].key();
            proof {
                assert(s[i as int] == self.devices@[i as int]@);
                assert(k@ == s[i as int].key());
            }
            if k.key_eq(key) {
                proof {
                    lemma_find_device_props(s, key@);
                    assert(s[i as int].key() == key@);
                    let f = find_device(s, key@);
                    if f < 0 {
                        assert(s[i as int].key() != key@);
                    }
                    assert(f == i as int);
                }
                return Some(i);
            }
            i += 1;
        }
        None
    }

    /// Reconciles one integration refresh report, per `refresh_transition`.
    /// Returns the bus messages the registry emits: one `DeviceUpdate` when
    /// the record is new or its state changed, none for a no-op report.
    pub fn handle_integration_device_refresh(
        &mut self,
        device: &Device,
        scenes: &Scenes,
        groups: &Groups,
        registered: &Vec<IntegrationId>,
    ) -> (msgs: Vec<Message>)
        requires
            old(self).wf(),
        ensures
            final(self).wf(),
            final(self).devices.deep_view() == refresh_transition(
                old(self).devices.deep_view(),
                device@,
                scenes.config@,
                groups.config@,
                registered.deep_view(),
            ).0,
            msgs.deep_view() == refresh_transition(
                old(self).devices.deep_view(),
                device@,
                scenes.config@,
                groups.config@,
                registered.deep_view(),
            ).1,
    {
        let ghost s = old(self).devices.deep_view();
        let key = device.key();
        match self.find_device_index(&key) {
            None => {
                proof {
                    lemma_find_device_props(s, device@.key());
                }
                let mut msgs: Vec<Message> = Vec::new();
                msgs.push(
                    Message::DeviceUpdate {
                        old_state: None,
                        new_state: device.state.clone(),
                        old: None,
                        new: device.clone(),
                    },
                );
                self.devices.push(device.clone());
                proof {
                    assert(self.devices.deep_view() =~= s.push(device@));
                    assert(msgs.deep_view() =~= seq![
                        MessageView::DeviceUpdate {
                            old_state: None,
                            new_state: device@.state,
                            old: None,
                            new: device@,
                        },
                    ]);
                    assert(keys_unique(self.devices.deep_view()));
                }
                msgs
            },
            Some(i) => {
                proof {
                    lemma_find_device_props(s, device@.key());
                    assert(i < self.devices@.len());
                    assert(self.devices.deep_view()[i as int] == self.devices@[i as int]@);
                }
                let same = self.devices[i].state.state_eq(&device.state);
                proof {
                    assert(same == (s[i as int].state == device@.state));
                }
                if same {
                    let msgs: Vec<Message> = Vec::new();
                    proof {
                        assert(msgs.deep_view() =~= Seq::<MessageView>::empty());
                    }
                    msgs
                } else {
                    // Does the report agree with the demand of the scene
                    // currently controlling this device?
                    let consistent: bool = match &self.devices[i].scene {
                        Some(sr) => match scenes.find_scene_index(&sr.scene_id) {
                            Some(sci) => {
                                proof {
                                    crate::scene::lemma_find_scene_props(
                                        scenes.config@,
                                        sr.scene_id@,
                                    );
                                }
                                match scenes.scene_state_for_key_exec(
                                    sci,
                                    groups,
                                    registered,
                                    &self.devices,
                                    &key,
                                ) {
                                    Some(ss) => apply_scene_state_exec(
                                        &ss,
                                        &device.state,
                                    ).state_eq(&device.state),
                                    None => true,
                                }
                            },
                            None => true,
                        },
                        None => true,
                    };
                    let prev = self.devices[i].clone();
                    let kept: Option<DeviceSceneState> = if consistent {
                        match &prev.scene {
                            Some(sr) => Some(sr.clone()),
                            None => None,
                        }
                    } else {
                        None
                    };
                    let upd = Device {
                        id: prev.id.clone(),
                        name: prev.name.clone(),
                        integration_id: prev.integration_id.clone(),
                        scene: kept,
                        state: device.state.clone(),
                    };
                    let ghost updv = upd@;
                    self.devices.set(i, upd.clone());
                    let mut msgs: Vec<Message> = Vec::new();
                    msgs.push(
                        Message::DeviceUpdate {
                            old_state: Some(prev.state.clone()),
                            new_state: device.state.clone(),
                            old: Some(prev),
                            new: upd,
                        },
                    );
                    proof {
                        assert(self.devices.deep_view() =~= s.update(i as int, updv));
                        assert(msgs.deep_view() =~= seq![
                            MessageView::DeviceUpdate {
                                old_state: Some(s[i as int].state),
                                new_state: device@.state,
                                old: Some(s[i as int]),
                                new: updv,
                            },
                        ]);
                        assert(updv.key() == s[i as int].key());
                        assert(keys_unique(self.devices.deep_view()));
                    }
                    msgs
                }
            },
        }
    }

    /// Applies one intent write, per `set_state_transition`: sensors are
    /// dropped; otherwise the record is stored optimistically, its scene
    /// reference kept only for scene-originated writes, and one write
    /// request for the owning integration is returned.
    pub fn set_device_state(&mut self, device: &Device, set_scene: bool) -> (msgs: Vec<Message>)
        requires
            old(self).wf(),
        ensures
            final(self).wf(),
            final(self).devices.deep_view() == set_state_transition(
                old(self).devices.deep_view(),
                device@,
                set_scene,
            ).0,
            msgs.deep_view() == set_state_transition(
                old(self).devices.deep_view(),
                device@,
                set_scene,
            ).1,
    {
        let ghost s = old(self).devices.deep_view();
        if device.state.is_sensor() {
            let msgs: Vec<Message> = Vec::new();
            proof {
                assert(msgs.deep_view() =~= Seq::<MessageView>::empty());
            }
            return msgs;
        }
        let record = Device {
            id: device.id.clone(),
            name: device.name.clone(),
            integration_id: device.integration_id.clone(),
            scene: if set_scene {
                match &device.scene {
                    Some(sr) => Some(sr.clone()),
                    None => None,
                }
            } else {
                None
            },
            state: device.state.clone(),
        };
        let ghost recv = record@;
        let key = device.key();
        let rec2 = record.clone();
        match self.find_device_index(&key) {
            Some(i) => {
                proof {
                    lemma_find_device_props(s, device@.key());
                }
                self.devices.set(i, record);
                proof {
                    assert(self.devices.deep_view() =~= s.update(i as int, recv));
                    assert(recv.key() == s[i as int].key());
                    assert(keys_unique(self.devices.deep_view()));
                }
            },
            None => {
                proof {
                    lemma_find_device_props(s, device@.key());
                }
                self.devices.push(record);
                proof {
                    assert(self.devices.deep_view() =~= s.push(recv));
                    assert(keys_unique(self.devices.deep_view()));
                }
            },
        }
        let mut msgs: Vec<Message> = Vec::new();
        msgs.push(Message::SetIntegrationDeviceState { device: rec2 });
        proof {
            assert(msgs.deep_view() =~= seq![
                MessageView::SetIntegrationDeviceState { device: recv },
            ]);
        }
        msgs
    }

    /// Activates the named scene, per `activate_transition`: every present,
    /// non-sensor record the scene targets takes the scene's demand and a
    /// fresh scene reference; one write request is returned per targeted
    /// device. An unknown scene does nothing.
    #[verifier::loop_isolation(false)]
    pub fn activate_scene(
        &mut self,
        scene_id: &SceneId,
        time: u64,
        scenes: &Scenes,
        groups: &Groups,
        registered: &Vec<IntegrationId>,
    ) -> (msgs: Vec<Message>)
        requires
            old(self).wf(),
        ensures
            final(self).wf(),
            final(self).devices.deep_view() == activate_transition(
                old(self).devices.deep_view(),
                scene_id@,
                time,
                scenes.config@,
                groups.config@,
                registered.deep_view(),
            ).0,
            msgs.deep_view() == activate_transition(
                old(self).devices.deep_view(),
                scene_id@,
                time,
                scenes.config@,
                groups.config@,
                registered.deep_view(),
            ).1,
    {
        let ghost s = old(self).devices.deep_view();
        let ghost scv = scenes.config@;
        let ghost gcv = groups.config@;
        let ghost rgv = registered.deep_view();
        let si = match scenes.find_scene_index(scene_id) {
            Some(si) => si,
            None => {
                let msgs: Vec<Message> = Vec::new();
                proof {
                    assert(msgs.deep_view() =~= Seq::<MessageView>::empty());
                }
                return msgs;
            },
        };
        proof {
            crate::scene::lemma_find_scene_props(scv, scene_id@);
        }
        let snapshot = clone_devices(&self.devices);
        assert(snapshot.deep_view() == s);
        let mut msgs: Vec<Message> = Vec::new();
        proof {
            assert(msgs.deep_view() + activate_messages(
                s,
                scv,
                si as int,
                gcv,
                rgv,
                scene_id@,
                time,
                0,
            ) =~= activate_messages(s, scv, si as int, gcv, rgv, scene_id@, time, 0));
        }
        let mut i: usize = 0;
        while i < self.devices.len()
            invariant
                i <= self.devices.len(),
                self.devices@.len() == s.len(),
                snapshot.deep_view() == s,
                forall|k: int|
                    i <= k < s.len() ==> #[trigger] self.devices.deep_view()[k] == s[k],
                forall|k: int|
                    0 <= k < i ==> #[trigger] self.devices.deep_view()[k] == (
                    match scene_target_of(scv, si as int, gcv, rgv, s, s[k], scene_id@, time) {
                        Some(t) => t,
                        None => s[k],
                    }),
                msgs.deep_view() + activate_messages(
                    s,
                    scv,
                    si as int,
                    gcv,
                    rgv,
                    scene_id@,
                    time,
                    i as int,
                ) == activate_messages(s, scv, si as int, gcv, rgv, scene_id@, time, 0),
            decreases self.devices.len() - i,
        {
            proof {
                assert(self.devices.deep_view()[i as int] == s[i as int]);
                assert(self.devices.deep_view()[i as int] == self.devices@[i as int]@);
            }
            let key = self.devices[i].key();
            assert(key@ == s[i as int].key());
            let sensor = self.devices[i].state.is_sensor();
            if sensor {
                proof {
                    assert(scene_target_of(
                        scv,
                        si as int,
                        gcv,
                        rgv,
                        s,
                        s[i as int],
                        scene_id@,
                        time,
                    ) is None);
                }
            } else {
                match scenes.scene_state_for_key_exec(si, groups, registered, &snapshot, &key) {
                    Some(ss) => {
                        let cur = &self.devices[i];
                        proof {
                            assert(cur@ == s[i as int]);
                        }
                        let target = Device {
                            id: cur.id.clone(),
                            name: cur.name.clone(),
                            integration_id: cur.integration_id.clone(),
                            scene: Some(
                                DeviceSceneState {
                                    scene_id: scene_id.clone(),
                                    activation_time: time,
                                },
                            ),
                            state: apply_scene_state_exec(&ss, &cur.state),
                        };
                        let ghost tv = target@;
                        proof {
                            assert(Some(tv) == scene_target_of(
                                scv,
                                si as int,
                                gcv,
                                rgv,
                                s,
                                s[i as int],
                                scene_id@,
                                time,
                            ));
                        }
                        let tc = target.clone();
                        let ghost pre_d = self.devices.deep_view();
                        let ghost pre_m = msgs.deep_view();
                        self.devices.set(i, target);
                        msgs.push(Message::SetIntegrationDeviceState { device: tc });
                        proof {
                            assert(self.devices.deep_view() =~= pre_d.update(i as int, tv));
                            assert(msgs.deep_view() =~= pre_m.push(
                                MessageView::SetIntegrationDeviceState { device: tv },
                            ));
                            lemma_seq_add_push(
                                pre_m,
                                MessageView::SetIntegrationDeviceState { device: tv },
                                activate_messages(
                                    s,
                                    scv,
                                    si as int,
                                    gcv,
                                    rgv,
                                    scene_id@,
                                    time,
                                    i as int + 1,
                                ),
                            );
                        }
                    },
                    None => {
                        proof {
                            assert(scene_target_of(
                                scv,
                                si as int,
                                gcv,
                                rgv,
                                s,
                                s[i as int],
                                scene_id@,
                                time,
                            ) is None);
                        }
                    },
                }
            }
            i += 1;
        }
        proof {
            assert(activate_messages(s, scv, si as int, gcv, rgv, scene_id@, time, s.len() as int)
                =~= Seq::<MessageView>::empty());
            assert(msgs.deep_view() + Seq::<MessageView>::empty() =~= msgs.deep_view());
            assert(self.devices.deep_view() =~= activate_transition(
                s,
                scene_id@,
                time,
                scv,
                gcv,
                rgv,
            ).0);
            assert forall|a: int, b: int|
                0 <= a < b
                    < self.devices.deep_view().len() implies self.devices.deep_view()[a].key()
                != self.devices.deep_view()[b].key() by {
                assert(self.devices.deep_view()[a].key() == s[a].key());
                assert(self.devices.deep_view()[b].key() == s[b].key());
            }
        }
        msgs
    }

    /// Whether any record is currently controlled by the named scene.
    pub fn scene_active_exec(&self, sid: &SceneId) -> (r: bool)
        ensures
            r == scene_active(self.devices.deep_view(), sid@),
    {
        let ghost s = self.devices.deep_view();
        let mut i: usize = 0;
        while i < self.devices.len()
            invariant
                i <= self.devices.len(),
                s == self.devices.deep_view(),
                forall|j: int| 0 <= j < i ==> !scene_device_active(s[j], sid@),
            decreases self.devices.len() - i,
        {
            let hit = match &self.devices[i].scene {
                Some(sr) => sr.scene_id.eq(sid),
                None => false,
            };
            if hit {
                assert(scene_device_active(s[i as int], sid@));
                return true;
            }
            i += 1;
        }
        false
    }

    /// Cycles through the given scenes, per `next_scene`: activates the
    /// first when none is active, else the successor (wrapping) of the
    /// first active one. An empty list does nothing.
    pub fn cycle_scenes(
        &mut self,
        scene_ids: &Vec<SceneId>,
        time: u64,
        scenes: &Scenes,
        groups: &Groups,
        registered: &Vec<IntegrationId>,
    ) -> (msgs: Vec<Message>)
        requires
            old(self).wf(),
        ensures
            final(self).wf(),
            match next_scene(scene_ids.deep_view(), old(self).devices.deep_view()) {
                None => {
                    &&& final(self).devices.deep_view() == old(self).devices.deep_view()
                    &&& msgs.deep_view() == Seq::<MessageView>::empty()
                },
                Some(sid) => {
                    &&& final(self).devices.deep_view() == activate_transition(
                        old(self).devices.deep_view(),
                        sid,
                        time,
                        scenes.config@,
                        groups.config@,
                        registered.deep_view(),
                    ).0
                    &&& msgs.deep_view() == activate_transition(
                        old(self).devices.deep_view(),
                        sid,
                        time,
                        scenes.config@,
                        groups.config@,
                        registered.deep_view(),
                    ).1
                },
            },
    {
        let ghost s = old(self).devices.deep_view();
        let ghost ids = scene_ids.deep_view();
        if scene_ids.len() == 0 {
            let msgs: Vec<Message> = Vec::new();
            proof {
                assert(msgs.deep_view() =~= Seq::<MessageView>::empty());
            }
            return msgs;
        }
        proof {
            lemma_find_active_scene_props(ids, s);
        }
        let mut active_i: Option<usize> = None;
        let mut j: usize = 0;
        while j < scene_ids.len()
            invariant
                j <= scene_ids.len(),
                s == self.devices.deep_view(),
                ids == scene_ids.deep_view(),
                match active_i {
                    Some(a) => a as int == find_active_scene(ids, s),
                    None => forall|k: int| 0 <= k < j ==> !scene_active(s, ids[k]),
                },
            decreases scene_ids.len() - j,
        {
            let done = match active_i {
                Some(_) => true,
                None => false,
            };
            if !done {
                let candidate = &scene_ids[j];
                proof {
                    assert(candidate@ == ids[j as int]);
                }
                if self.scene_active_exec(candidate) {
                    proof {
                        lemma_find_active_scene_props(ids, s);
                        assert(scene_active(s, ids[j as int]));
                        let f = find_active_scene(ids, s);
                        if f < 0 {
                            assert(!scene_active(s, ids[j as int]));
                        }
                        assert(f == j as int);
                    }
                    active_i = Some(j);
                }
            }
            j += 1;
        }
        let chosen: usize = match active_i {
            None => {
                proof {
                    lemma_find_active_scene_props(ids, s);
                    assert(find_active_scene(ids, s) < 0);
                }
                0
            },
            Some(a) => {
                proof {
                    lemma_find_active_scene_props(ids, s);
                }
                if a + 1 == scene_ids.len() {
                    proof {
                        assert((a as int + 1) % (ids.len() as int) == 0) by {
                            vstd::arithmetic::div_mod::lemma_mod_self_0(ids.len() as int);
                        }
                    }
                    0
                } else {
                    proof {
                        assert((a as int + 1) % (ids.len() as int) == a as int + 1) by {
                            vstd::arithmetic::div_mod::lemma_small_mod(
                                (a + 1) as nat,
                                ids.len() as nat,
                            );
                        }
                    }
                    a + 1
                }
            },
        };
        let sid = &scene_ids[chosen];
        proof {
            assert(sid@ == ids[chosen as int]);
        }
        assert(Some(sid@) == next_scene(ids, s));
        self.activate_scene(sid, time, scenes, groups, registered)
    }
}

/// Reconciling the same report twice acts once: after the first report is
/// absorbed, the same report again is a no-op and announces nothing.
pub proof fn lemma_refresh_idempotent(
    devices: Seq<DeviceView>,
    d: DeviceView,
    scenes: Seq<(SceneId, SceneConfig)>,
    gc: Seq<(GroupId, GroupConfig)>,
    registered: Seq<Seq<char>>,
)
    requires
        keys_unique(devices),
    ensures
        ({
            let first = refresh_transition(devices, d, scenes, gc, registered);
            refresh_transition(first.0, d, scenes, gc, registered) == (
                first.0,
                Seq::<MessageView>::empty(),
            )
        }),
{
    lemma_find_device_props(devices, d.key());
    let i = find_device(devices, d.key());
    let first = refresh_transition(devices, d, scenes, gc, registered);
    let d1 = first.0;
    lemma_find_device_props(d1, d.key());
    let i2 = find_device(d1, d.key());
    if i < 0 {
        assert(d1 == devices.push(d));
        assert(d1[devices.len() as int] == d);
        assert(i2 >= 0);
        if i2 < devices.len() {
            assert(d1[i2] == devices[i2]);
            assert(false);
        }
        assert(i2 == devices.len());
        assert(d1[i2].state == d.state);
    } else {
        if devices[i].state == d.state {
            assert(d1 == devices);
            assert(i2 == i);
        } else {
            assert(d1[i].key() == d.key());
            assert(i2 >= 0);
            if i2 < i {
                assert(d1[i2] == devices[i2]);
                assert(false);
            }
            if i2 > i {
                assert(d1[i].key() != d.key());
                assert(false);
            }
            assert(i2 == i);
            assert(d1[i2].state == d.state);
        }
    }
}

/// A manual override wins over a scene: a device controlled by scene S
/// whose refresh reports a state inconsistent with S's demand has its
/// scene reference cleared by that refresh.
pub proof fn lemma_refresh_manual_override(
    devices: Seq<DeviceView>,
    d: DeviceView,
    scenes: Seq<(SceneId, SceneConfig)>,
    gc: Seq<(GroupId, GroupConfig)>,
    registered: Seq<Seq<char>>,
)
    ensures
        ({
            let i = find_device(devices, d.key());
            let first = refresh_transition(devices, d, scenes, gc, registered);
            (i >= 0 && devices[i].state != d.state && match devices[i].scene {
                Some(sr) => !scene_consistent(
                    scenes,
                    gc,
                    registered,
                    devices,
                    sr,
                    devices[i].key(),
                    d.state,
                ),
                None => false,
            }) ==> first.0[i].scene is None
        }),
{
    lemma_find_device_props(devices, d.key());
}

/// A refresh never grants scene ownership: it can only keep or clear a
/// scene reference, so a record owned by no scene stays that way. Only
/// scene activation sets the reference.
pub proof fn lemma_refresh_never_sets_scene(
    devices: Seq<DeviceView>,
    d: DeviceView,
    scenes: Seq<(SceneId, SceneConfig)>,
    gc: Seq<(GroupId, GroupConfig)>,
    registered: Seq<Seq<char>>,
)
    requires
        d.scene is None,
        forall|i: int| 0 <= i < devices.len() ==> (#[trigger] devices[i]).scene is None,
    ensures
        ({
            let first = refresh_transition(devices, d, scenes, gc, registered);
            forall|i: int| 0 <= i < first.0.len() ==> (#[trigger] first.0[i]).scene is None
        }),
{
    lemma_find_device_props(devices, d.key());
}

/// Activating the same scene twice in succession leaves every device's
/// state as after the first activation; only the activation time in the
/// scene reference of the targeted devices moves to the second call's
/// tick.
pub proof fn lemma_activate_scene_idempotent(
    devices: Seq<DeviceView>,
    scene_id: Seq<char>,
    t1: u64,
    t2: u64,
    scenes: Seq<(SceneId, SceneConfig)>,
    gc: Seq<(GroupId, GroupConfig)>,
    registered: Seq<Seq<char>>,
)
    ensures
        ({
            let si = find_scene(scenes, scene_id);
            let first = activate_transition(devices, scene_id, t1, scenes, gc, registered);
            let second = activate_transition(first.0, scene_id, t2, scenes, gc, registered);
            &&& second.0.len() == first.0.len()
            &&& forall|i: int|
                0 <= i < first.0.len() ==> (#[trigger] second.0[i]).state == first.0[i].state
            &&& forall|i: int|
                0 <= i < first.0.len() ==> (#[trigger] second.0[i]).scene == (
                if si >= 0 && scene_target_of(
                    scenes,
                    si,
                    gc,
                    registered,
                    devices,
                    devices[i],
                    scene_id,
                    t1,
                ) is Some {
                    Some(DeviceSceneStateView { scene_id, activation_time: t2 })
                } else {
                    first.0[i].scene
                })
        }),
{
    let si = find_scene(scenes, scene_id);
    let first = activate_transition(devices, scene_id, t1, scenes, gc, registered);
    let d1 = first.0;
    let second = activate_transition(d1, scene_id, t2, scenes, gc, registered);
    if si >= 0 {
        assert(d1.len() == devices.len());
        assert(crate::device::same_profiles(devices, d1)) by {
            assert forall|i: int| 0 <= i < devices.len() implies {
                &&& (#[trigger] devices[i]).id == d1[i].id
                &&& devices[i].name == d1[i].name
                &&& devices[i].integration_id == d1[i].integration_id
            } by {
                match scene_target_of(
                    scenes,
                    si,
                    gc,
                    registered,
                    devices,
                    devices[i],
                    scene_id,
                    t1,
                ) {
                    Some(t) => {},
                    None => {},
                }
            }
        }
        assert forall|i: int| 0 <= i < d1.len() implies {
            &&& (#[trigger] second.0[i]).state == d1[i].state
            &&& second.0[i].scene == (
            if scene_target_of(
                scenes,
                si,
                gc,
                registered,
                devices,
                devices[i],
                scene_id,
                t1,
            ) is Some {
                Some(DeviceSceneStateView { scene_id, activation_time: t2 })
            } else {
                d1[i].scene
            })
        } by {
            crate::scene::lemma_scene_state_profiles(
                scenes[si].1@,
                gc,
                registered,
                devices,
                d1,
                devices[i].key(),
            );
            assert(d1[i].key() == devices[i].key());
            match scene_state_for_key(scenes[si].1@, gc, registered, devices, devices[i].key()) {
                Some(ss) => {
                    if devices[i].state.is_sensor() {
                        assert(d1[i] == devices[i]);
                    } else {
                        assert(d1[i].state == apply_scene_state(ss, devices[i].state));
                        assert(!d1[i].state.is_sensor());
                        crate::scene::lemma_apply_scene_state_idempotent(ss, devices[i].state);
                    }
                },
                None => {
                    assert(d1[i] == devices[i]);
                },
            }
        }
    }
}

/// Element-wise copy of the registry, for a stable snapshot while records
/// are rewritten in place.
fn clone_devices(devices: &Vec<Device>) -> (r: Vec<Device>)
    ensures
        r.deep_view() == devices.deep_view(),
{
    let mut r: Vec<Device> = Vec::new();
    let mut i: usize = 0;
    while i < devices.len()
        invariant
            i <= devices.len(),
            r.deep_view() =~= devices.deep_view().subrange(0, i as int),
        decreases devices.len() - i,
    {
        let ghost pre = r.deep_view();
        r.push(devices[i].clone());
        proof {
            assert(r.deep_view() =~= pre.push(devices.deep_view()[i as int]));
            assert(devices.deep_view().subrange(0, i as int + 1) =~= devices.deep_view()
                .subrange(0, i as int).push(devices.deep_view()[i as int]));
        }
        i += 1;
    }
    proof {
        assert(r.deep_view() =~= devices.deep_view());
    }
    r
}

/// Splitting a concatenation at a pushed element.
proof fn lemma_seq_add_push(a: Seq<MessageView>, x: MessageView, b: Seq<MessageView>)
    ensures
        a.push(x) + b =~= a + (seq![x] + b),
{
}

} // verus!
