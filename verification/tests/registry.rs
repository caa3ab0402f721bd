use homectl_core::device::{Device, DeviceState, Light, OnOffDevice, SensorKind};
use homectl_core::devices::Devices;
use homectl_core::group::{GroupConfig, GroupId, Groups};
use homectl_core::message::Message;
use homectl_core::scene::{SceneConfig, SceneDeviceLink, SceneDeviceState, Scenes};

fn light(power: bool, brightness: Option<u16>) -> DeviceState {
    DeviceState::Light(Light {
        power,
        brightness,
        color: None,
    })
}

fn bulb(id: &str, integration: &str, state: DeviceState) -> Device {
    Device {
        id: id.to_string(),
        name: format!("{} light", id),
        integration_id: integration.to_string(),
        scene: None,
        state,
    }
}

fn empty_env() -> (Scenes, Groups, Vec<String>) {
    (
        Scenes::new(Vec::new()),
        Groups::new(Vec::new()),
        vec!["lifx".to_string()],
    )
}

#[test]
fn refresh_creates_record_and_announces() {
    let (scenes, groups, registered) = empty_env();
    let mut devices = Devices::new();
    let d = bulb("bulb1", "lifx", light(false, Some(500)));
    let msgs = devices.handle_integration_device_refresh(&d, &scenes, &groups, &registered);
    assert_eq!(devices.devices.len(), 1);
    assert_eq!(msgs.len(), 1);
    match &msgs[0] {
        Message::DeviceUpdate {
            old_state,
            new_state,
            old,
            new,
        } => {
            assert!(old_state.is_none());
            assert!(old.is_none());
            assert!(new_state.state_eq(&light(false, Some(500))));
            assert_eq!(new.id, "bulb1");
        }
        _ => panic!("expected a DeviceUpdate"),
    }
}

#[test]
fn refresh_identical_state_is_silent_second_time() {
    let (scenes, groups, registered) = empty_env();
    let mut devices = Devices::new();
    let d = bulb("bulb1", "lifx", light(true, Some(500)));
    let first = devices.handle_integration_device_refresh(&d, &scenes, &groups, &registered);
    assert_eq!(first.len(), 1);
    let second = devices.handle_integration_device_refresh(&d, &scenes, &groups, &registered);
    assert_eq!(second.len(), 0);
    assert_eq!(devices.devices.len(), 1);
}

#[test]
fn refresh_changed_state_announces_transition() {
    let (scenes, groups, registered) = empty_env();
    let mut devices = Devices::new();
    devices.handle_integration_device_refresh(
        &bulb("bulb1", "lifx", light(false, None)),
        &scenes,
        &groups,
        &registered,
    );
    let msgs = devices.handle_integration_device_refresh(
        &bulb("bulb1", "lifx", light(true, None)),
        &scenes,
        &groups,
        &registered,
    );
    assert_eq!(msgs.len(), 1);
    match &msgs[0] {
        Message::DeviceUpdate {
            old_state,
            new_state,
            ..
        } => {
            assert!(old_state.as_ref().unwrap().state_eq(&light(false, None)));
            assert!(new_state.state_eq(&light(true, None)));
        }
        _ => panic!("expected a DeviceUpdate"),
    }
    assert_eq!(devices.devices.len(), 1);
}

#[test]
fn set_device_state_stores_and_forwards() {
    let mut devices = Devices::new();
    let d = bulb("bulb1", "lifx", light(true, Some(600)));
    let msgs = devices.set_device_state(&d, false);
    assert_eq!(devices.devices.len(), 1);
    assert!(devices.devices[0].scene.is_none());
    assert_eq!(msgs.len(), 1);
    match &msgs[0] {
        Message::SetIntegrationDeviceState { device } => {
            assert_eq!(device.id, "bulb1");
            assert!(device.state.state_eq(&light(true, Some(600))));
        }
        _ => panic!("expected a SetIntegrationDeviceState"),
    }
}

#[test]
fn set_device_state_ignores_sensors() {
    let mut devices = Devices::new();
    let d = bulb(
        "motion1",
        "hue",
        DeviceState::Sensor(SensorKind::OnOffSensor { value: true }),
    );
    let msgs = devices.set_device_state(&d, false);
    assert_eq!(devices.devices.len(), 0);
    assert_eq!(msgs.len(), 0);
}

#[test]
fn set_device_state_without_scene_clears_scene_ref() {
    let (scenes_empty, groups, registered) = empty_env();
    let scene = SceneConfig {
        name: "evening".to_string(),
        devices: vec![SceneDeviceLink {
            integration_id: "lifx".to_string(),
            device_id: "bulb1".to_string(),
            state: SceneDeviceState {
                power: true,
                color: None,
                brightness: Some(600),
            },
        }],
        groups: Vec::new(),
    };
    let scenes = Scenes::new(vec![("evening".to_string(), scene)]);
    let mut devices = Devices::new();
    devices.handle_integration_device_refresh(
        &bulb("bulb1", "lifx", light(false, Some(100))),
        &scenes_empty,
        &groups,
        &registered,
    );
    devices.activate_scene(&"evening".to_string(), 7, &scenes, &groups, &registered);
    assert!(devices.devices[0].scene.is_some());
    let manual = bulb("bulb1", "lifx", light(false, Some(100)));
    devices.set_device_state(&manual, false);
    assert!(devices.devices[0].scene.is_none());
}

#[test]
fn format_device_name_exact() {
    let d = bulb("bulb1", "lifx", light(true, None));
    let s = homectl_core::device::format_device_name(&d);
    assert_eq!(s, "bulb1 light, (lifx / bulb1)");
}

#[test]
fn group_id_round_trip() {
    let g = GroupId::new("living_room".to_string());
    let h = GroupId::from_str("living_room");
    assert!(g.group_eq(&h));
    let other = GroupId::new("bedroom".to_string());
    assert!(!g.group_eq(&other));
}

#[test]
fn group_config_holds_links() {
    let cfg = GroupConfig {
        name: "Living room".to_string(),
        devices: None,
        groups: None,
    };
    let groups = Groups::new(vec![(GroupId::new("living_room".to_string()), cfg)]);
    assert_eq!(groups.config.len(), 1);
}
