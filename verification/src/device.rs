use vstd::prelude::*;
use vstd::string::StringExecFns;

verus! {

/// Identifies one integration instance; unique across the running system.
pub type IntegrationId = String;

/// Identifies one device; unique only within its owning integration.
pub type DeviceId = String;

/// Identifies one scene.
pub type SceneId = String;

/// The only globally unique device identifier: the owning integration's id
/// together with the device's id within that integration.
#[derive(Debug)]
pub struct DeviceKey {
    pub integration_id: IntegrationId,
    pub device_id: DeviceId,
}

/// Mathematical model of a [`DeviceKey`]: both ids as character sequences.
pub ghost struct DeviceKeyView {
    pub integration_id: Seq<char>,
    pub device_id: Seq<char>,
}

impl View for DeviceKey {
    type V = DeviceKeyView;

    open spec fn view(&self) -> DeviceKeyView {
        DeviceKeyView { integration_id: self.integration_id@, device_id: self.device_id@ }
    }
}

impl DeepView for DeviceKey {
    type V = DeviceKeyView;

    open spec fn deep_view(&self) -> DeviceKeyView {
        self.view()
    }
}

impl DeviceKey {
    pub fn new(integration_id: IntegrationId, device_id: DeviceId) -> (r: DeviceKey)
        ensures
            r@ == (DeviceKeyView { integration_id: integration_id@, device_id: device_id@ }),
    {
        DeviceKey { integration_id, device_id }
    }

    /// Decides whether two keys name the same device.
    pub fn key_eq(&self, other: &DeviceKey) -> (r: bool)
        ensures
            r == (self@ == other@),
    {
        let r = self.integration_id == other.integration_id && self.device_id == other.device_id;
        proof {
            if self@ == other@ {
                assert(self.integration_id@ == other.integration_id@);
                assert(self.device_id@ == other.device_id@);
            }
        }
        r
    }
}

/// Device-agnostic color: either hue/saturation/value or a correlated color
/// temperature. Hue is in degrees (0..360), saturation and value in
/// thousandths (0..=1000), temperature in kelvin.
#[derive(Clone, Copy, Debug, PartialEq, Eq, Structural)]
pub enum DeviceColor {
    Hsv { hue: u16, saturation: u16, value: u16 },
    Cct { kelvin: u16 },
}

/// Simple on/off devices such as relays.
#[derive(Clone, Copy, Debug, PartialEq, Eq, Structural)]
pub struct OnOffDevice {
    pub power: bool,
}

/// Lights with adjustable brightness and/or color. A `None` brightness or
/// color means the light does not support that channel; brightness is in
/// thousandths (0..=1000).
#[derive(Clone, Copy, Debug, PartialEq, Eq, Structural)]
pub struct Light {
    pub power: bool,
    pub brightness: Option<u16>,
    pub color: Option<DeviceColor>,
}

/// Lights with multiple individually adjustable light sources: one color per
/// source, and a global brightness in thousandths (0..=1000).
#[derive(Debug)]
pub struct MultiSourceLight {
    pub power: bool,
    pub brightness: u16,
    pub lights: Vec<DeviceColor>,
}

/// Mathematical model of a [`MultiSourceLight`].
pub ghost struct MultiSourceLightView {
    pub power: bool,
    pub brightness: u16,
    pub lights: Seq<DeviceColor>,
}

impl View for MultiSourceLight {
    type V = MultiSourceLightView;

    open spec fn view(&self) -> MultiSourceLightView {
        MultiSourceLightView {
            power: self.power,
            brightness: self.brightness,
            lights: self.lights@,
        }
    }
}

/// Button sensors, motion sensors. Sensors are read-only for the engine:
/// they are never targets of a state-set request.
#[derive(Clone, Copy, Debug, PartialEq, Eq, Structural)]
pub enum SensorKind {
    OnOffSensor { value: bool },
    DimmerSwitch { on: bool, up: bool, down: bool, off: bool },
    Unknown,
}

/// The closed set of device state variants.
#[derive(Debug)]
pub enum DeviceState {
    OnOffDevice(OnOffDevice),
    Light(Light),
    MultiSourceLight(MultiSourceLight),
    Sensor(SensorKind),
}

/// Mathematical model of a [`DeviceState`].
pub ghost enum DeviceStateView {
    OnOffDevice(OnOffDevice),
    Light(Light),
    MultiSourceLight(MultiSourceLightView),
    Sensor(SensorKind),
}

impl View for DeviceState {
    type V = DeviceStateView;

    open spec fn view(&self) -> DeviceStateView {
        match self {
            DeviceState::OnOffDevice(s) => DeviceStateView::OnOffDevice(*s),
            DeviceState::Light(s) => DeviceStateView::Light(*s),
            DeviceState::MultiSourceLight(s) => DeviceStateView::MultiSourceLight(s@),
            DeviceState::Sensor(s) => DeviceStateView::Sensor(*s),
        }
    }
}

impl DeepView for DeviceState {
    type V = DeviceStateView;

    open spec fn deep_view(&self) -> DeviceStateView {
        self.view()
    }
}

impl DeviceStateView {
    /// Whether this state variant is a sensor.
    pub open spec fn is_sensor(self) -> bool {
        self is Sensor
    }

    /// The power field of the state, where the variant has one.
    pub open spec fn power_of(self) -> Option<bool> {
        match self {
            DeviceStateView::OnOffDevice(s) => Some(s.power),
            DeviceStateView::Light(s) => Some(s.power),
            DeviceStateView::MultiSourceLight(s) => Some(s.power),
            DeviceStateView::Sensor(_) => None,
        }
    }
}

impl DeviceState {
    /// Whether this state is a sensor state.
    pub fn is_sensor(&self) -> (r: bool)
        ensures
            r == self@.is_sensor(),
    {
        match self {
            DeviceState::Sensor(_) => true,
            _ => false,
        }
    }

    /// The power field of the state, where the variant has one.
    pub fn power_of(&self) -> (r: Option<bool>)
        ensures
            r == self@.power_of(),
    {
        match self {
            DeviceState::OnOffDevice(s) => Some(s.power),
            DeviceState::Light(s) => Some(s.power),
            DeviceState::MultiSourceLight(s) => Some(s.power),
            DeviceState::Sensor(_) => None,
        }
    }

    /// Decides structural equality of two device states.
    pub fn state_eq(&self, other: &DeviceState) -> (r: bool)
        ensures
            r == (self@ == other@),
    {
        match (self, other) {
            (DeviceState::OnOffDevice(a), DeviceState::OnOffDevice(b)) => a == b,
            (DeviceState::Light(a), DeviceState::Light(b)) => a == b,
            (DeviceState::MultiSourceLight(a), DeviceState::MultiSourceLight(b)) => {
                let r = a.power == b.power && a.brightness == b.brightness
                    && colors_eq(&a.lights, &b.lights);
                proof {
                    if a@ == b@ {
                        assert(a.lights@ == b.lights@);
                    }
                    if r {
                        assert(a@ == b@);
                    }
                }
                r
            }
            (DeviceState::Sensor(a), DeviceState::Sensor(b)) => a == b,
            _ => false,
        }
    }
}

/// Decides equality of two color lists.
pub fn colors_eq(a: &Vec<DeviceColor>, b: &Vec<DeviceColor>) -> (r: bool)
    ensures
        r == (a@ == b@),
{
    if a.len() != b.len() {
        assert(a@ != b@) by {
            assert(a@.len() != b@.len());
        }
        return false;
    }
    let mut i: usize = 0;
    while i < a.len()
        invariant
            i <= a.len(),
            a@.len() == b@.len(),
            forall|j: int| 0 <= j < i ==> a@[j] == b@[j],
        decreases a.len() - i,
    {
        if a[i] != b[i] {
            return false;
        }
        i += 1;
    }
    proof {
        assert(a@ =~= b@);
    }
    true
}

/// The scene currently controlling a device's desired state, if any, and the
/// tick at which it was activated.
#[derive(Debug)]
pub struct DeviceSceneState {
    pub scene_id: SceneId,
    pub activation_time: u64,
}

/// Mathematical model of a [`DeviceSceneState`].
pub ghost struct DeviceSceneStateView {
    pub scene_id: Seq<char>,
    pub activation_time: u64,
}

impl View for DeviceSceneState {
    type V = DeviceSceneStateView;

    open spec fn view(&self) -> DeviceSceneStateView {
        DeviceSceneStateView { scene_id: self.scene_id@, activation_time: self.activation_time }
    }
}

impl DeviceSceneState {
    pub fn new(scene_id: SceneId, activation_time: u64) -> (r: DeviceSceneState)
        ensures
            r@ == (DeviceSceneStateView { scene_id: scene_id@, activation_time }),
    {
        DeviceSceneState { scene_id, activation_time }
    }
}

/// One device record: identity, display name, owning integration, the scene
/// currently controlling it (if any), and its last known state.
#[derive(Debug)]
pub struct Device {
    pub id: DeviceId,
    pub name: String,
    pub integration_id: IntegrationId,
    pub scene: Option<DeviceSceneState>,
    pub state: DeviceState,
}

/// Mathematical model of a [`Device`].
pub ghost struct DeviceView {
    pub id: Seq<char>,
    pub name: Seq<char>,
    pub integration_id: Seq<char>,
    pub scene: Option<DeviceSceneStateView>,
    pub state: DeviceStateView,
}

impl View for Device {
    type V = DeviceView;

    open spec fn view(&self) -> DeviceView {
        DeviceView {
            id: self.id@,
            name: self.name@,
            integration_id: self.integration_id@,
            scene: match self.scene {
                Some(s) => Some(s@),
                None => None,
            },
            state: self.state@,
        }
    }
}

impl DeepView for Device {
    type V = DeviceView;

    open spec fn deep_view(&self) -> DeviceView {
        self.view()
    }
}

impl DeviceView {
    /// The globally unique key of this device.
    pub open spec fn key(self) -> DeviceKeyView {
        DeviceKeyView { integration_id: self.integration_id, device_id: self.id }
    }
}

/// Two registry snapshots agree on identity: same length and, per index,
/// the same device id, name and integration id. State and scene reference
/// are free to differ; everything that resolves devices by identity (name
/// links, keys) sees the two snapshots alike.
pub open spec fn same_profiles(a: Seq<DeviceView>, b: Seq<DeviceView>) -> bool {
    &&& a.len() == b.len()
    &&& forall|i: int|
        0 <= i < a.len() ==> {
            &&& (#[trigger] a[i]).id == b[i].id
            &&& a[i].name == b[i].name
            &&& a[i].integration_id == b[i].integration_id
        }
}

impl Device {
    /// The globally unique key of this device.
    pub fn key(&self) -> (r: DeviceKey)
        ensures
            r@ == self@.key(),
    {
        DeviceKey {
            integration_id: self.integration_id.clone(),
            device_id: self.id.clone(),
        }
    }
}

impl Clone for DeviceKey {
    fn clone(&self) -> (r: DeviceKey)
        ensures
            r == *self,
    {
        DeviceKey {
            integration_id: self.integration_id.clone(),
            device_id: self.device_id.clone(),
        }
    }
}

impl Clone for MultiSourceLight {
    fn clone(&self) -> (r: MultiSourceLight)
        ensures
            r@ == self@,
    {
        let mut lights: Vec<DeviceColor> = Vec::new();
        let mut i: usize = 0;
        while i < self.lights.len()
            invariant
                i <= self.lights.len(),
                lights@ == self.lights@.subrange(0, i as int),
            decreases self.lights.len() - i,
        {
            lights.push(self.lights[i]);
            i += 1;
        }
        proof {
            assert(lights@ =~= self.lights@);
        }
        MultiSourceLight { power: self.power, brightness: self.brightness, lights }
    }
}

impl Clone for DeviceState {
    fn clone(&self) -> (r: DeviceState)
        ensures
            r@ == self@,
    {
        match self {
            DeviceState::OnOffDevice(s) => DeviceState::OnOffDevice(*s),
            DeviceState::Light(s) => DeviceState::Light(*s),
            DeviceState::MultiSourceLight(s) => DeviceState::MultiSourceLight(s.clone()),
            DeviceState::Sensor(s) => DeviceState::Sensor(*s),
        }
    }
}

impl Clone for DeviceSceneState {
    fn clone(&self) -> (r: DeviceSceneState)
        ensures
            r == *self,
    {
        DeviceSceneState {
            scene_id: self.scene_id.clone(),
            activation_time: self.activation_time,
        }
    }
}

impl Clone for Device {
    fn clone(&self) -> (r: Device)
        ensures
            r@ == self@,
    {
        Device {
            id: self.id.clone(),
            name: self.name.clone(),
            integration_id: self.integration_id.clone(),
            scene: match &self.scene {
                Some(s) => Some(s.clone()),
                None => None,
            },
            state: self.state.clone(),
        }
    }
}

/// Formats a device for diagnostics: name, integration id and device id.
pub fn format_device_name(device: &Device) -> (r: String)
    ensures
        r@ == device.name@ + ", ("@ + device.integration_id@ + " / "@ + device.id@ + ")"@,
{
    let mut r = device.name.clone();
    r.append(", (");
    r.append(str_of(&device.integration_id));
    r.append(" / ");
    r.append(str_of(&device.id));
    r.append(")");
    r
}

/// Borrows a `String` as a `&str`.
fn str_of(s: &String) -> (r: &str)
    ensures
        r@ == s@,
{
    s.as_str()
}

} // verus!
