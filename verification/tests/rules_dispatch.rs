use homectl_core::device::{Device, DeviceState, Light};
use homectl_core::dispatch::EngineState;
use homectl_core::group::{GroupConfig, GroupDeviceLink, GroupId, Groups};
use homectl_core::message::Message;
use homectl_core::rules::{Rule, RuleAction, RuleTrigger, Rules};
use homectl_core::scene::{SceneConfig, SceneDeviceState, SceneGroupLink, Scenes};

fn light(power: bool, brightness: Option<u16>) -> DeviceState {
    DeviceState::Light(Light {
        power,
        brightness,
        color: None,
    })
}

fn bulb(id: &str, integration: &str, state: DeviceState) -> Device {
    Device {
        id: id.to_string(),
        name: id.to_string(),
        integration_id: integration.to_string(),
        scene: None,
        state,
    }
}

fn power_rule(from: Option<bool>, to: bool, action: RuleAction) -> Rule {
    Rule {
        trigger: RuleTrigger {
            integration_id: "lifx".to_string(),
            device_id: "bulb1".to_string(),
            from_power: from,
            to_power: to,
        },
        actions: vec![action],
    }
}

#[test]
fn rule_fires_exactly_once_on_matching_transition() {
    let rules = Rules::new(vec![power_rule(
        Some(false),
        true,
        RuleAction::ActivateScene("evening".to_string()),
    )]);
    let old_state = Some(light(false, None));
    let new = bulb("bulb1", "lifx", light(true, None));
    let msgs = rules.handle_device_update(&old_state, &new);
    assert_eq!(msgs.len(), 1);
    match &msgs[0] {
        Message::ActivateScene { scene_id } => assert_eq!(scene_id, "evening"),
        _ => panic!("expected an ActivateScene"),
    }
}

#[test]
fn rule_stays_silent_on_non_matching_transition() {
    let rules = Rules::new(vec![power_rule(
        Some(false),
        true,
        RuleAction::ActivateScene("evening".to_string()),
    )]);
    // Powered on already: no false-to-true transition.
    let msgs = rules.handle_device_update(
        &Some(light(true, None)),
        &bulb("bulb1", "lifx", light(true, None)),
    );
    assert_eq!(msgs.len(), 0);
    // Wrong device.
    let msgs = rules.handle_device_update(
        &Some(light(false, None)),
        &bulb("bulb2", "lifx", light(true, None)),
    );
    assert_eq!(msgs.len(), 0);
    // New device without a previous state cannot match a `from` constraint.
    let msgs =
        rules.handle_device_update(&None, &bulb("bulb1", "lifx", light(true, None)));
    assert_eq!(msgs.len(), 0);
}

#[test]
fn rules_fire_in_configuration_order() {
    let rules = Rules::new(vec![
        power_rule(None, true, RuleAction::ActivateScene("one".to_string())),
        power_rule(Some(true), false, RuleAction::ActivateScene("unrelated".to_string())),
        power_rule(None, true, RuleAction::CycleScenes(vec!["x".to_string()])),
    ]);
    let msgs = rules.handle_device_update(
        &Some(light(false, None)),
        &bulb("bulb1", "lifx", light(true, None)),
    );
    assert_eq!(msgs.len(), 2);
    assert!(matches!(&msgs[0], Message::ActivateScene { .. }));
    assert!(matches!(&msgs[1], Message::CycleScenes { .. }));
}

fn end_to_end_state() -> EngineState {
    let groups = Groups::new(vec![(
        GroupId::new("living_room".to_string()),
        GroupConfig {
            name: "Living room".to_string(),
            devices: Some(vec![GroupDeviceLink {
                integration_id: "lifx".to_string(),
                device_id: Some("bulb1".to_string()),
                name: None,
            }]),
            groups: None,
        },
    )]);
    let scenes = Scenes::new(vec![(
        "evening".to_string(),
        SceneConfig {
            name: "Evening".to_string(),
            devices: Vec::new(),
            groups: vec![SceneGroupLink {
                group_id: GroupId::new("living_room".to_string()),
                state: SceneDeviceState {
                    power: true,
                    color: None,
                    brightness: Some(600),
                },
            }],
        },
    )]);
    let rules = Rules::new(vec![Rule {
        trigger: RuleTrigger {
            integration_id: "lifx".to_string(),
            device_id: "bulb1".to_string(),
            from_power: None,
            to_power: false,
        },
        actions: vec![RuleAction::ActivateScene("evening".to_string())],
    }]);
    EngineState::new(groups, scenes, rules, vec!["lifx".to_string()])
}

#[test]
fn dispatch_end_to_end_refresh_to_integration_write() {
    let mut state = end_to_end_state();
    // An integration reports a powered-off bulb; the registry creates the
    // record and announces it.
    let refresh = Message::IntegrationDeviceRefresh {
        device: bulb("bulb1", "lifx", light(false, Some(100))),
    };
    let (msgs, writes) = state.handle_message(refresh, 10);
    assert_eq!(writes.len(), 0);
    assert_eq!(msgs.len(), 1);
    let update = msgs.into_iter().next().unwrap();
    match &update {
        Message::DeviceUpdate { old, new, .. } => {
            assert!(old.is_none());
            assert_eq!(new.id, "bulb1");
        }
        _ => panic!("expected a DeviceUpdate"),
    }
    // The rule engine reacts to the announcement: bulb1 went off, so it
    // asks for the evening scene.
    let (msgs, writes) = state.handle_message(update, 11);
    assert_eq!(writes.len(), 0);
    assert_eq!(msgs.len(), 1);
    let activate = msgs.into_iter().next().unwrap();
    match &activate {
        Message::ActivateScene { scene_id } => assert_eq!(scene_id, "evening"),
        _ => panic!("expected an ActivateScene"),
    }
    // Scene activation resolves the living room group down to bulb1 and
    // rewrites its record with the scene's demand.
    let (msgs, writes) = state.handle_message(activate, 12);
    assert_eq!(writes.len(), 0);
    assert_eq!(msgs.len(), 1);
    let set = msgs.into_iter().next().unwrap();
    match &set {
        Message::SetIntegrationDeviceState { device } => {
            assert!(device.state.state_eq(&light(true, Some(600))));
            let sr = device.scene.as_ref().unwrap();
            assert_eq!(sr.scene_id, "evening");
            assert_eq!(sr.activation_time, 12);
        }
        _ => panic!("expected a SetIntegrationDeviceState"),
    }
    // The write request is routed to the owning integration.
    let (msgs, writes) = state.handle_message(set, 13);
    assert_eq!(msgs.len(), 0);
    assert_eq!(writes.len(), 1);
    assert_eq!(writes[0].integration_id, "lifx");
    assert_eq!(writes[0].id, "bulb1");
    assert!(writes[0].state.state_eq(&light(true, Some(600))));
    // The registry itself reflects the intent optimistically.
    assert!(state.devices.devices[0]
        .state
        .state_eq(&light(true, Some(600))));
}

#[test]
fn dispatch_drops_write_for_unknown_integration() {
    let mut state = end_to_end_state();
    let msg = Message::SetIntegrationDeviceState {
        device: bulb("bulb1", "unknown", light(true, None)),
    };
    let (msgs, writes) = state.handle_message(msg, 1);
    assert_eq!(msgs.len(), 0);
    assert_eq!(writes.len(), 0);
}
