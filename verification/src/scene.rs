use vstd::prelude::*;
use crate::device::{
    Device, DeviceColor, DeviceId, DeviceKey, DeviceKeyView, DeviceState, DeviceStateView,
    DeviceView, IntegrationId, Light, MultiSourceLight, MultiSourceLightView, OnOffDevice,
    SceneId,
};
use crate::group::{flatten_group_spec, GroupId, Groups};

verus! {

/// The desired state a scene demands of a device, in the device-agnostic
/// color model: power, and optional color and brightness targets. A device
/// lacking a channel silently ignores that component.
#[derive(Clone, Copy, Debug, PartialEq, Eq, Structural)]
pub struct SceneDeviceState {
    pub power: bool,
    pub color: Option<DeviceColor>,
    pub brightness: Option<u16>,
}

/// A scene entry targeting one device directly.
#[derive(Clone, Debug)]
pub struct SceneDeviceLink {
    pub integration_id: IntegrationId,
    pub device_id: DeviceId,
    pub state: SceneDeviceState,
}

/// Mathematical model of a [`SceneDeviceLink`].
pub ghost struct SceneDeviceLinkView {
    pub integration_id: Seq<char>,
    pub device_id: Seq<char>,
    pub state: SceneDeviceState,
}

impl View for SceneDeviceLink {
    type V = SceneDeviceLinkView;

    open spec fn view(&self) -> SceneDeviceLinkView {
        SceneDeviceLinkView {
            integration_id: self.integration_id@,
            device_id: self.device_id@,
            state: self.state,
        }
    }
}

impl DeepView for SceneDeviceLink {
    type V = SceneDeviceLinkView;

    open spec fn deep_view(&self) -> SceneDeviceLinkView {
        self.view()
    }
}

/// A scene entry targeting every device of a group.
#[derive(Clone, Debug)]
pub struct SceneGroupLink {
    pub group_id: GroupId,
    pub state: SceneDeviceState,
}

/// Mathematical model of a [`SceneGroupLink`].
pub ghost struct SceneGroupLinkView {
    pub group_id: Seq<char>,
    pub state: SceneDeviceState,
}

impl View for SceneGroupLink {
    type V = SceneGroupLinkView;

    open spec fn view(&self) -> SceneGroupLinkView {
        SceneGroupLinkView { group_id: self.group_id@, state: self.state }
    }
}

impl DeepView for SceneGroupLink {
    type V = SceneGroupLinkView;

    open spec fn deep_view(&self) -> SceneGroupLinkView {
        self.view()
    }
}

/// One scene definition: a name, directly targeted devices, and targeted
/// groups.
#[derive(Clone, Debug)]
pub struct SceneConfig {
    pub name: String,
    pub devices: Vec<SceneDeviceLink>,
    pub groups: Vec<SceneGroupLink>,
}

/// Mathematical model of a [`SceneConfig`].
pub ghost struct SceneConfigView {
    pub name: Seq<char>,
    pub devices: Seq<SceneDeviceLinkView>,
    pub groups: Seq<SceneGroupLinkView>,
}

impl View for SceneConfig {
    type V = SceneConfigView;

    open spec fn view(&self) -> SceneConfigView {
        SceneConfigView {
            name: self.name@,
            devices: self.devices.deep_view(),
            groups: self.groups.deep_view(),
        }
    }
}

/// The scene configuration table, loaded once at startup.
pub type ScenesConfig = Vec<(SceneId, SceneConfig)>;

/// The target state a scene demand produces on a device with the given
/// current state: power is always taken from the demand; brightness and
/// color apply only to the channels the device's state variant supports,
/// and keep the device's current value where the demand leaves them out.
/// Sensors are read-only and stay unchanged.
pub open spec fn apply_scene_state(s: SceneDeviceState, cur: DeviceStateView) -> DeviceStateView {
    match cur {
        DeviceStateView::OnOffDevice(_) => DeviceStateView::OnOffDevice(
            OnOffDevice { power: s.power },
        ),
        DeviceStateView::Light(l) => DeviceStateView::Light(
            Light {
                power: s.power,
                brightness: match l.brightness {
                    Some(b) => match s.brightness {
                        Some(sb) => Some(sb),
                        None => Some(b),
                    },
                    None => None,
                },
                color: match l.color {
                    Some(c) => match s.color {
                        Some(sc) => Some(sc),
                        None => Some(c),
                    },
                    None => None,
                },
            },
        ),
        DeviceStateView::MultiSourceLight(m) => DeviceStateView::MultiSourceLight(
            MultiSourceLightView {
                power: s.power,
                brightness: match s.brightness {
                    Some(sb) => sb,
                    None => m.brightness,
                },
                lights: match s.color {
                    Some(sc) => Seq::new(m.lights.len(), |i: int| sc),
                    None => m.lights,
                },
            },
        ),
        DeviceStateView::Sensor(k) => DeviceStateView::Sensor(k),
    }
}

/// Applying the same scene demand twice gives the same state as applying it
/// once: the demand pins every channel it touches and the device's
/// capability shape is preserved.
pub proof fn lemma_apply_scene_state_idempotent(s: SceneDeviceState, cur: DeviceStateView)
    ensures
        apply_scene_state(s, apply_scene_state(s, cur)) == apply_scene_state(s, cur),
{
    let once = apply_scene_state(s, cur);
    let twice = apply_scene_state(s, once);
    match cur {
        DeviceStateView::MultiSourceLight(m) => {
            match (once, twice) {
                (
                    DeviceStateView::MultiSourceLight(m1),
                    DeviceStateView::MultiSourceLight(m2),
                ) => {
                    assert(m1.lights.len() == m.lights.len());
                    assert(m2.lights =~= m1.lights);
                },
                _ => {},
            }
        },
        _ => {},
    }
}

/// Computes the target state on an executable device state.
pub fn apply_scene_state_exec(s: &SceneDeviceState, cur: &DeviceState) -> (r: DeviceState)
    ensures
        r@ == apply_scene_state(*s, cur@),
{
    match cur {
        DeviceState::OnOffDevice(_) => DeviceState::OnOffDevice(OnOffDevice { power: s.power }),
        DeviceState::Light(l) => DeviceState::Light(
            Light {
                power: s.power,
                brightness: match l.brightness {
                    Some(b) => match s.brightness {
                        Some(sb) => Some(sb),
                        None => Some(b),
                    },
                    None => None,
                },
                color: match l.color {
                    Some(c) => match s.color {
                        Some(sc) => Some(sc),
                        None => Some(c),
                    },
                    None => None,
                },
            },
        ),
        DeviceState::MultiSourceLight(m) => {
            let brightness: u16 = match s.brightness {
                Some(sb) => sb,
                None => m.brightness,
            };
            let mut lights: Vec<DeviceColor> = Vec::new();
            match s.color {
                Some(sc) => {
                    let mut i: usize = 0;
                    while i < m.lights.len()
                        invariant
                            i <= m.lights.len(),
                            lights@ =~= Seq::new(i as nat, |k: int| sc),
                        decreases m.lights.len() - i,
                    {
                        lights.push(sc);
                        proof {
                            assert(lights@ =~= Seq::new(i as nat + 1, |k: int| sc));
                        }
                        i += 1;
                    }
                    proof {
                        assert(lights@ =~= Seq::new(m.lights@.len(), |k: int| sc));
                    }
                },
                None => {
                    let mut i: usize = 0;
                    while i < m.lights.len()
                        invariant
                            i <= m.lights.len(),
                            lights@ =~= m.lights@.subrange(0, i as int),
                        decreases m.lights.len() - i,
                    {
                        lights.push(m.lights[i]);
                        i += 1;
                    }
                    proof {
                        assert(lights@ =~= m.lights@);
                    }
                },
            }
            DeviceState::MultiSourceLight(
                MultiSourceLight { power: s.power, brightness, lights },
            )
        },
        DeviceState::Sensor(k) => DeviceState::Sensor(*k),
    }
}

/// First index among a scene's direct device links of one naming the given
/// key, or -1.
pub open spec fn find_scene_device(links: Seq<SceneDeviceLinkView>, key: DeviceKeyView) -> int
    decreases links.len(),
{
    if links.len() == 0 {
        -1
    } else if links[0].integration_id == key.integration_id && links[0].device_id
        == key.device_id {
        0
    } else {
        let r = find_scene_device(links.drop_first(), key);
        if r < 0 {
            -1
        } else {
            r + 1
        }
    }
}

/// `find_scene_device` returns the first matching index, or -1 when no link
/// matches.
pub proof fn lemma_find_scene_device_props(links: Seq<SceneDeviceLinkView>, key: DeviceKeyView)
    ensures
        find_scene_device(links, key) >= 0 ==> {
            &&& find_scene_device(links, key) < links.len()
            &&& links[find_scene_device(links, key)].integration_id == key.integration_id
            &&& links[find_scene_device(links, key)].device_id == key.device_id
            &&& forall|j: int|
                0 <= j < find_scene_device(links, key) ==> !(links[j].integration_id
                    == key.integration_id && links[j].device_id == key.device_id)
        },
        find_scene_device(links, key) < 0 ==> forall|j: int|
            0 <= j < links.len() ==> !(links[j].integration_id == key.integration_id
                && links[j].device_id == key.device_id),
    decreases links.len(),
{
    if links.len() > 0 && !(links[0].integration_id == key.integration_id && links[0].device_id
        == key.device_id) {
        lemma_find_scene_device_props(links.drop_first(), key);
        let fd = find_scene_device(links.drop_first(), key);
        if fd >= 0 {
            assert(links[fd + 1] == links.drop_first()[fd]);
            assert forall|j: int| 0 <= j < fd + 1 implies !(links[j].integration_id
                == key.integration_id && links[j].device_id == key.device_id) by {
                if j > 0 {
                    assert(links[j] == links.drop_first()[j - 1]);
                }
            }
        } else {
            assert forall|j: int| 0 <= j < links.len() implies !(links[j].integration_id
                == key.integration_id && links[j].device_id == key.device_id) by {
                if j > 0 {
                    assert(links[j] == links.drop_first()[j - 1]);
                }
            }
        }
    }
}

/// The demand a scene places on the device with the given key through its
/// group links: the first group link, in order, whose group flattens
/// successfully to a key set containing the key. Groups that fail to
/// flatten are skipped.
pub open spec fn scene_group_state_for_key(
    glinks: Seq<SceneGroupLinkView>,
    gc: Seq<(GroupId, crate::group::GroupConfig)>,
    registered: Seq<Seq<char>>,
    kn: Seq<DeviceView>,
    key: DeviceKeyView,
) -> Option<SceneDeviceState>
    decreases glinks.len(),
{
    if glinks.len() == 0 {
        None
    } else {
        let hit = match flatten_group_spec(gc, registered, kn, glinks[0].group_id, Set::empty()) {
            Some(keys) => keys.contains(key),
            None => false,
        };
        if hit {
            Some(glinks[0].state)
        } else {
            scene_group_state_for_key(glinks.drop_first(), gc, registered, kn, key)
        }
    }
}

/// The demand a scene places on the device with the given key: an explicit
/// device link wins; otherwise the first matching group link; `None` if the
/// scene does not target the device.
pub open spec fn scene_state_for_key(
    scene: SceneConfigView,
    gc: Seq<(GroupId, crate::group::GroupConfig)>,
    registered: Seq<Seq<char>>,
    kn: Seq<DeviceView>,
    key: DeviceKeyView,
) -> Option<SceneDeviceState> {
    let i = find_scene_device(scene.devices, key);
    if i >= 0 {
        Some(scene.devices[i].state)
    } else {
        scene_group_state_for_key(scene.groups, gc, registered, kn, key)
    }
}

/// Group-link resolution reads only identity fields of the known devices:
/// it is equal on profile-equal snapshots.
proof fn lemma_scene_group_state_profiles(
    glinks: Seq<SceneGroupLinkView>,
    gc: Seq<(GroupId, crate::group::GroupConfig)>,
    registered: Seq<Seq<char>>,
    kn1: Seq<DeviceView>,
    kn2: Seq<DeviceView>,
    key: DeviceKeyView,
)
    requires
        crate::device::same_profiles(kn1, kn2),
    ensures
        scene_group_state_for_key(glinks, gc, registered, kn1, key) == scene_group_state_for_key(
            glinks,
            gc,
            registered,
            kn2,
            key,
        ),
    decreases glinks.len(),
{
    if glinks.len() > 0 {
        crate::group::lemma_flatten_profiles(
            gc,
            registered,
            kn1,
            kn2,
            glinks[0].group_id,
            Set::empty(),
        );
        lemma_scene_group_state_profiles(glinks.drop_first(), gc, registered, kn1, kn2, key);
    }
}

/// A scene's demand for a key reads only identity fields of the known
/// devices: it is equal on profile-equal snapshots.
pub proof fn lemma_scene_state_profiles(
    scene: SceneConfigView,
    gc: Seq<(GroupId, crate::group::GroupConfig)>,
    registered: Seq<Seq<char>>,
    kn1: Seq<DeviceView>,
    kn2: Seq<DeviceView>,
    key: DeviceKeyView,
)
    requires
        crate::device::same_profiles(kn1, kn2),
    ensures
        scene_state_for_key(scene, gc, registered, kn1, key) == scene_state_for_key(
            scene,
            gc,
            registered,
            kn2,
            key,
        ),
{
    lemma_scene_group_state_profiles(scene.groups, gc, registered, kn1, kn2, key);
}

/// First index of the scene with the given id, or -1.
pub open spec fn find_scene(configs: Seq<(SceneId, SceneConfig)>, id: Seq<char>) -> int
    decreases configs.len(),
{
    if configs.len() == 0 {
        -1
    } else if configs[0].0@ == id {
        0
    } else {
        let r = find_scene(configs.drop_first(), id);
        if r < 0 {
            -1
        } else {
            r + 1
        }
    }
}

/// `find_scene` returns the first matching index, or -1 when no entry
/// matches.
pub proof fn lemma_find_scene_props(configs: Seq<(SceneId, SceneConfig)>, id: Seq<char>)
    ensures
        find_scene(configs, id) >= 0 ==> {
            &&& find_scene(configs, id) < configs.len()
            &&& configs[find_scene(configs, id)].0@ == id
            &&& forall|j: int| 0 <= j < find_scene(configs, id) ==> configs[j].0@ != id
        },
        find_scene(configs, id) < 0 ==> forall|j: int|
            0 <= j < configs.len() ==> configs[j].0@ != id,
    decreases configs.len(),
{
    if configs.len() > 0 && configs[0].0@ != id {
        lemma_find_scene_props(configs.drop_first(), id);
        let fd = find_scene(configs.drop_first(), id);
        if fd >= 0 {
            assert(configs[fd + 1] == configs.drop_first()[fd]);
            assert forall|j: int| 0 <= j < fd + 1 implies configs[j].0@ != id by {
                if j > 0 {
                    assert(configs[j] == configs.drop_first()[j - 1]);
                }
            }
        } else {
            assert forall|j: int| 0 <= j < configs.len() implies configs[j].0@ != id by {
                if j > 0 {
                    assert(configs[j] == configs.drop_first()[j - 1]);
                }
            }
        }
    }
}

/// The scene subsystem: the scene configuration, loaded once at startup and
/// immutable for the process lifetime.
pub struct Scenes {
    pub config: ScenesConfig,
}

impl Scenes {
    pub fn new(config: ScenesConfig) -> (r: Scenes)
        ensures
            r.config == config,
    {
        Scenes { config }
    }

    /// Finds the index of a scene definition by id.
    pub fn find_scene_index(&self, id: &SceneId) -> (r: Option<usize>)
        ensures
            match r {
                Some(i) => find_scene(self.config@, id@) == i as int,
                None => find_scene(self.config@, id@) < 0,
            },
    {
        proof {
            lemma_find_scene_props(self.config@, id@);
        }
        let mut i: usize = 0;
        while i < self.config.len()
            invariant
                i <= self.config.len(),
                forall|j: int| 0 <= j < i ==> self.config@[j].0@ != id@,
            decreases self.config.len() - i,
        {
            if self.config[i].0.eq(id) {
                proof {
                    lemma_find_scene_props(self.config@, id@);
                    let f = find_scene(self.config@, id@);
                    if f < 0 {
                        assert(self.config@[i as int].0@ != id@);
                    }
                    assert(f == i as int);
                }
                return Some(i);
            }
            i += 1;
        }
        None
    }

    /// Computes the demand the scene at index `si` places on the given key,
    /// resolving the scene's group links through the group subsystem.
    #[verifier::loop_isolation(false)]
    pub fn scene_state_for_key_exec(
        &self,
        si: usize,
        groups: &Groups,
        registered: &Vec<IntegrationId>,
        known: &Vec<Device>,
        key: &DeviceKey,
    ) -> (r: Option<SceneDeviceState>)
        requires
            si < self.config@.len(),
        ensures
            r == scene_state_for_key(
                self.config@[si as int].1@,
                groups.config@,
                registered.deep_view(),
                known.deep_view(),
                key@,
            ),
    {
        let scene = &self.config[si].1;
        let ghost sv = scene@;
        proof {
            lemma_find_scene_device_props(sv.devices, key@);
        }
        // Direct device links first.
        let mut i: usize = 0;
        while i < scene.devices.len()
            invariant
                i <= scene.devices.len(),
                forall|j: int|
                    0 <= j < i ==> !(sv.devices[j].integration_id == key@.integration_id
                        && sv.devices[j].device_id == key@.device_id),
            decreases scene.devices.len() - i,
        {
            let l = &scene.devices[i];
            if l.integration_id.eq(&key.integration_id) && l.device_id.eq(&key.device_id) {
                proof {
                    assert(sv.devices[i as int] == l@);
                    let f = find_scene_device(sv.devices, key@);
                    if f < 0 {
                        assert(!(sv.devices[i as int].integration_id == key@.integration_id
                            && sv.devices[i as int].device_id == key@.device_id));
                    }
                    assert(f == i as int);
                }
                return Some(l.state);
            }
            i += 1;
        }
        assert(find_scene_device(sv.devices, key@) < 0);
        // Then group links, in order.
        let ghost gvs = sv.groups;
        proof {
            assert(gvs.skip(0) =~= gvs);
        }
        let mut g: usize = 0;
        while g < scene.groups.len()
            invariant
                g <= scene.groups.len(),
                scene_group_state_for_key(
                    gvs.skip(g as int),
                    groups.config@,
                    registered.deep_view(),
                    known.deep_view(),
                    key@,
                ) == scene_group_state_for_key(
                    gvs,
                    groups.config@,
                    registered.deep_view(),
                    known.deep_view(),
                    key@,
                ),
            decreases scene.groups.len() - g,
        {
            proof {
                assert(gvs.skip(g as int).len() > 0);
                assert(gvs.skip(g as int)[0] == gvs[g as int]);
                assert(gvs.skip(g as int).drop_first() =~= gvs.skip(g as int + 1));
            }
            let gl = &scene.groups[g];
            assert(gvs[g as int] == gl@);
            match groups.flatten_group(registered, known, &gl.group_id) {
                Some(keys) => {
                    if crate::group::keys_contain(&keys, key) {
                        return Some(gl.state);
                    }
                },
                None => (),
            }
            g += 1;
        }
        proof {
            assert(gvs.skip(scene.groups.len() as int).len() == 0);
        }
        None
    }
}

} // verus!
