use homectl_core::device::{Device, DeviceColor, DeviceKey, DeviceState, Light, MultiSourceLight};
use homectl_core::devices::Devices;
use homectl_core::group::{
    FlattenedGroupConfig, GroupConfig, GroupDeviceLink, GroupId, GroupLink, Groups,
};
use homectl_core::message::Message;
use homectl_core::scene::{
    SceneConfig, SceneDeviceState, SceneGroupLink, Scenes,
};

fn light(power: bool, brightness: Option<u16>) -> DeviceState {
    DeviceState::Light(Light {
        power,
        brightness,
        color: None,
    })
}

fn bulb(id: &str, integration: &str, state: DeviceState) -> Device {
    Device {
        id: id.to_string(),
        name: id.to_string(),
        integration_id: integration.to_string(),
        scene: None,
        state,
    }
}

fn device_link(integration: &str, id: &str) -> GroupDeviceLink {
    GroupDeviceLink {
        integration_id: integration.to_string(),
        device_id: Some(id.to_string()),
        name: None,
    }
}

fn group(name: &str, devices: Vec<GroupDeviceLink>, nested: Vec<&str>) -> GroupConfig {
    GroupConfig {
        name: name.to_string(),
        devices: if devices.is_empty() {
            None
        } else {
            Some(devices)
        },
        groups: if nested.is_empty() {
            None
        } else {
            Some(
                nested
                    .into_iter()
                    .map(|g| GroupLink {
                        group_id: GroupId::new(g.to_string()),
                    })
                    .collect(),
            )
        },
    }
}

#[test]
fn flatten_collects_and_deduplicates() {
    let groups = Groups::new(vec![
        (
            GroupId::new("living_room".to_string()),
            group(
                "Living room",
                vec![device_link("lifx", "bulb1"), device_link("lifx", "bulb2")],
                vec![],
            ),
        ),
        (
            GroupId::new("downstairs".to_string()),
            group(
                "Downstairs",
                vec![device_link("lifx", "bulb1")],
                vec!["living_room"],
            ),
        ),
    ]);
    let registered = vec!["lifx".to_string()];
    let known: Vec<Device> = Vec::new();
    let keys = groups
        .flatten_group(
            &registered,
            &known,
            &GroupId::new("downstairs".to_string()),
        )
        .unwrap();
    let ids: Vec<&str> = keys.iter().map(|k| k.device_id.as_str()).collect();
    assert_eq!(ids, vec!["bulb1", "bulb2"]);
}

#[test]
fn flatten_drops_unregistered_integrations() {
    let groups = Groups::new(vec![(
        GroupId::new("g".to_string()),
        group(
            "G",
            vec![device_link("lifx", "bulb1"), device_link("hue", "bulb2")],
            vec![],
        ),
    )]);
    let registered = vec!["lifx".to_string()];
    let known: Vec<Device> = Vec::new();
    let keys = groups
        .flatten_group(&registered, &known, &GroupId::new("g".to_string()))
        .unwrap();
    assert_eq!(keys.len(), 1);
    assert_eq!(keys[0].integration_id, "lifx");
}

#[test]
fn flatten_resolves_name_links_against_known_devices() {
    let groups = Groups::new(vec![(
        GroupId::new("g".to_string()),
        group(
            "G",
            vec![GroupDeviceLink {
                integration_id: "lifx".to_string(),
                device_id: None,
                name: Some("corner lamp".to_string()),
            }],
            vec![],
        ),
    )]);
    let registered = vec!["lifx".to_string()];
    let mut lamp = bulb("bulb9", "lifx", light(true, None));
    lamp.name = "corner lamp".to_string();
    let known = vec![lamp];
    let keys = groups
        .flatten_group(&registered, &known, &GroupId::new("g".to_string()))
        .unwrap();
    assert_eq!(keys.len(), 1);
    assert_eq!(keys[0].device_id, "bulb9");
}

#[test]
fn flatten_rejects_self_reference() {
    let groups = Groups::new(vec![
        (
            GroupId::new("loop".to_string()),
            group("Loop", vec![device_link("lifx", "bulb1")], vec!["loop"]),
        ),
        (
            GroupId::new("fine".to_string()),
            group("Fine", vec![device_link("lifx", "bulb2")], vec![]),
        ),
    ]);
    let registered = vec!["lifx".to_string()];
    let known: Vec<Device> = Vec::new();
    assert!(groups
        .flatten_group(&registered, &known, &GroupId::new("loop".to_string()))
        .is_none());
    // The cycle affects only the offending group; others still resolve.
    let fine = groups
        .flatten_group(&registered, &known, &GroupId::new("fine".to_string()))
        .unwrap();
    assert_eq!(fine.len(), 1);
}

#[test]
fn flatten_rejects_mutual_reference() {
    let groups = Groups::new(vec![
        (
            GroupId::new("a".to_string()),
            group("A", vec![], vec!["b"]),
        ),
        (
            GroupId::new("b".to_string()),
            group("B", vec![], vec!["a"]),
        ),
    ]);
    let registered = vec!["lifx".to_string()];
    let known: Vec<Device> = Vec::new();
    assert!(groups
        .flatten_group(&registered, &known, &GroupId::new("a".to_string()))
        .is_none());
    assert!(groups
        .flatten_group(&registered, &known, &GroupId::new("b".to_string()))
        .is_none());
}

#[test]
fn flatten_groups_reports_each_group_separately() {
    let groups = Groups::new(vec![
        (
            GroupId::new("loop".to_string()),
            group("Loop", vec![], vec!["loop"]),
        ),
        (
            GroupId::new("fine".to_string()),
            group("Fine", vec![device_link("lifx", "bulb1")], vec![]),
        ),
    ]);
    let registered = vec!["lifx".to_string()];
    let known: Vec<Device> = Vec::new();
    let all: Vec<(GroupId, Option<FlattenedGroupConfig>)> =
        groups.flatten_groups(&registered, &known);
    assert_eq!(all.len(), 2);
    assert!(all[0].1.is_none());
    let fine = all[1].1.as_ref().unwrap();
    assert_eq!(fine.name, "Fine");
    assert_eq!(fine.device_ids.len(), 1);
    let expected = DeviceKey::new("lifx".to_string(), "bulb1".to_string());
    assert!(fine.device_ids[0].key_eq(&expected));
}

fn evening_env() -> (Scenes, Groups, Vec<String>) {
    let groups = Groups::new(vec![(
        GroupId::new("living_room".to_string()),
        group(
            "Living room",
            vec![device_link("lifx", "bulb1"), device_link("lifx", "bulb2")],
            vec![],
        ),
    )]);
    let scenes = Scenes::new(vec![(
        "evening".to_string(),
        SceneConfig {
            name: "Evening".to_string(),
            devices: Vec::new(),
            groups: vec![SceneGroupLink {
                group_id: GroupId::new("living_room".to_string()),
                state: SceneDeviceState {
                    power: true,
                    color: Some(DeviceColor::Cct { kelvin: 2700 }),
                    brightness: Some(600),
                },
            }],
        },
    )]);
    (scenes, groups, vec!["lifx".to_string()])
}

#[test]
fn activate_scene_applies_demand_and_sets_scene_ref() {
    let (scenes, groups, registered) = evening_env();
    let mut devices = Devices::new();
    devices.handle_integration_device_refresh(
        &bulb(
            "bulb1",
            "lifx",
            DeviceState::Light(Light {
                power: false,
                brightness: Some(100),
                color: Some(DeviceColor::Cct { kelvin: 4000 }),
            }),
        ),
        &scenes,
        &groups,
        &registered,
    );
    let msgs = devices.activate_scene(&"evening".to_string(), 42, &scenes, &groups, &registered);
    assert_eq!(msgs.len(), 1);
    let d = &devices.devices[0];
    assert!(d.state.state_eq(&DeviceState::Light(Light {
        power: true,
        brightness: Some(600),
        color: Some(DeviceColor::Cct { kelvin: 2700 }),
    })));
    let sr = d.scene.as_ref().unwrap();
    assert_eq!(sr.scene_id, "evening");
    assert_eq!(sr.activation_time, 42);
}

#[test]
fn activate_scene_twice_is_idempotent_but_updates_time() {
    let (scenes, groups, registered) = evening_env();
    let mut devices = Devices::new();
    devices.handle_integration_device_refresh(
        &bulb("bulb1", "lifx", light(false, Some(100))),
        &scenes,
        &groups,
        &registered,
    );
    devices.activate_scene(&"evening".to_string(), 1, &scenes, &groups, &registered);
    let after_first = devices.devices[0].clone();
    devices.activate_scene(&"evening".to_string(), 2, &scenes, &groups, &registered);
    let after_second = &devices.devices[0];
    assert!(after_second.state.state_eq(&after_first.state));
    assert_eq!(after_second.scene.as_ref().unwrap().activation_time, 2);
    assert_eq!(after_first.scene.as_ref().unwrap().activation_time, 1);
}

#[test]
fn activate_scene_ignores_light_channels_the_device_lacks() {
    let (scenes, groups, registered) = evening_env();
    let mut devices = Devices::new();
    devices.handle_integration_device_refresh(
        &bulb("bulb1", "lifx", light(false, None)),
        &scenes,
        &groups,
        &registered,
    );
    devices.activate_scene(&"evening".to_string(), 1, &scenes, &groups, &registered);
    // The device supports neither brightness nor color: only power moves.
    assert!(devices.devices[0].state.state_eq(&light(true, None)));
}

#[test]
fn inconsistent_refresh_clears_scene_ref() {
    let (scenes, groups, registered) = evening_env();
    let mut devices = Devices::new();
    devices.handle_integration_device_refresh(
        &bulb("bulb1", "lifx", light(false, Some(100))),
        &scenes,
        &groups,
        &registered,
    );
    devices.activate_scene(&"evening".to_string(), 1, &scenes, &groups, &registered);
    assert!(devices.devices[0].scene.is_some());
    // The device reports it was powered off while the scene demands on:
    // a manual override, so the scene no longer owns the device.
    devices.handle_integration_device_refresh(
        &bulb("bulb1", "lifx", light(false, Some(600))),
        &scenes,
        &groups,
        &registered,
    );
    assert!(devices.devices[0].scene.is_none());
}

#[test]
fn consistent_refresh_keeps_scene_ref() {
    let (scenes, groups, registered) = evening_env();
    let mut devices = Devices::new();
    devices.handle_integration_device_refresh(
        &bulb("bulb1", "lifx", light(false, Some(100))),
        &scenes,
        &groups,
        &registered,
    );
    devices.activate_scene(&"evening".to_string(), 1, &scenes, &groups, &registered);
    // The physical device confirms exactly the demanded state; a brightness
    // report within the demand keeps the scene's ownership.
    devices.handle_integration_device_refresh(
        &bulb("bulb1", "lifx", light(true, Some(600))),
        &scenes,
        &groups,
        &registered,
    );
    assert!(devices.devices[0].scene.is_some());
}

fn three_scene_env() -> (Scenes, Groups, Vec<String>) {
    let groups = Groups::new(Vec::new());
    let mk = |name: &str, brightness: u16| {
        (
            name.to_string(),
            SceneConfig {
                name: name.to_string(),
                devices: vec![homectl_core::scene::SceneDeviceLink {
                    integration_id: "lifx".to_string(),
                    device_id: "bulb1".to_string(),
                    state: SceneDeviceState {
                        power: true,
                        color: None,
                        brightness: Some(brightness),
                    },
                }],
                groups: Vec::new(),
            },
        )
    };
    let scenes = Scenes::new(vec![mk("a", 100), mk("b", 200), mk("c", 300)]);
    (scenes, groups, vec!["lifx".to_string()])
}

fn cycle_ids() -> Vec<String> {
    vec!["a".to_string(), "b".to_string(), "c".to_string()]
}

#[test]
fn cycle_scenes_starts_at_first_when_none_active() {
    let (scenes, groups, registered) = three_scene_env();
    let mut devices = Devices::new();
    devices.handle_integration_device_refresh(
        &bulb("bulb1", "lifx", light(false, Some(1))),
        &scenes,
        &groups,
        &registered,
    );
    devices.cycle_scenes(&cycle_ids(), 1, &scenes, &groups, &registered);
    assert_eq!(devices.devices[0].scene.as_ref().unwrap().scene_id, "a");
}

#[test]
fn cycle_scenes_advances_to_next() {
    let (scenes, groups, registered) = three_scene_env();
    let mut devices = Devices::new();
    devices.handle_integration_device_refresh(
        &bulb("bulb1", "lifx", light(false, Some(1))),
        &scenes,
        &groups,
        &registered,
    );
    devices.activate_scene(&"a".to_string(), 1, &scenes, &groups, &registered);
    devices.cycle_scenes(&cycle_ids(), 2, &scenes, &groups, &registered);
    assert_eq!(devices.devices[0].scene.as_ref().unwrap().scene_id, "b");
}

#[test]
fn cycle_scenes_wraps_from_last_to_first() {
    let (scenes, groups, registered) = three_scene_env();
    let mut devices = Devices::new();
    devices.handle_integration_device_refresh(
        &bulb("bulb1", "lifx", light(false, Some(1))),
        &scenes,
        &groups,
        &registered,
    );
    devices.activate_scene(&"c".to_string(), 1, &scenes, &groups, &registered);
    devices.cycle_scenes(&cycle_ids(), 2, &scenes, &groups, &registered);
    assert_eq!(devices.devices[0].scene.as_ref().unwrap().scene_id, "a");
}

#[test]
fn activate_unknown_scene_changes_nothing() {
    let (scenes, groups, registered) = evening_env();
    let mut devices = Devices::new();
    devices.handle_integration_device_refresh(
        &bulb("bulb1", "lifx", light(false, Some(100))),
        &scenes,
        &groups,
        &registered,
    );
    let msgs = devices.activate_scene(&"nonexistent".to_string(), 1, &scenes, &groups, &registered);
    assert_eq!(msgs.len(), 0);
    assert!(devices.devices[0].state.state_eq(&light(false, Some(100))));
    assert!(devices.devices[0].scene.is_none());
}

#[test]
fn cycle_scenes_with_empty_list_does_nothing() {
    let (scenes, groups, registered) = three_scene_env();
    let mut devices = Devices::new();
    devices.handle_integration_device_refresh(
        &bulb("bulb1", "lifx", light(false, Some(1))),
        &scenes,
        &groups,
        &registered,
    );
    let msgs = devices.cycle_scenes(&Vec::new(), 1, &scenes, &groups, &registered);
    assert_eq!(msgs.len(), 0);
    assert!(devices.devices[0].scene.is_none());
}

#[test]
fn scene_color_reaches_every_source_of_a_multi_source_light() {
    let (scenes, groups, registered) = evening_env();
    let mut devices = Devices::new();
    let strip = Device {
        id: "bulb1".to_string(),
        name: "strip".to_string(),
        integration_id: "lifx".to_string(),
        scene: None,
        state: DeviceState::MultiSourceLight(MultiSourceLight {
            power: false,
            brightness: 100,
            lights: vec![
                DeviceColor::Cct { kelvin: 4000 },
                DeviceColor::Cct { kelvin: 5000 },
            ],
        }),
    };
    devices.handle_integration_device_refresh(&strip, &scenes, &groups, &registered);
    devices.activate_scene(&"evening".to_string(), 1, &scenes, &groups, &registered);
    let expected = DeviceState::MultiSourceLight(MultiSourceLight {
        power: true,
        brightness: 600,
        lights: vec![
            DeviceColor::Cct { kelvin: 2700 },
            DeviceColor::Cct { kelvin: 2700 },
        ],
    });
    assert!(devices.devices[0].state.state_eq(&expected));
}

#[test]
fn cycle_scenes_emits_write_for_activated_scene() {
    let (scenes, groups, registered) = three_scene_env();
    let mut devices = Devices::new();
    devices.handle_integration_device_refresh(
        &bulb("bulb1", "lifx", light(false, Some(1))),
        &scenes,
        &groups,
        &registered,
    );
    let msgs = devices.cycle_scenes(&cycle_ids(), 1, &scenes, &groups, &registered);
    assert_eq!(msgs.len(), 1);
    match &msgs[0] {
        Message::SetIntegrationDeviceState { device } => {
            assert!(device.state.state_eq(&light(true, Some(100))));
        }
        _ => panic!("expected a SetIntegrationDeviceState"),
    }
}
