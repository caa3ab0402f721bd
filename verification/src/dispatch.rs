use vstd::prelude::*;
use crate::device::{Device, DeviceView, IntegrationId};
use crate::devices::{
    activate_transition, next_scene, refresh_transition, set_state_transition, Devices,
};
use crate::group::{registered_contains, GroupConfig, GroupId, Groups};
use crate::message::{Message, MessageView};
use crate::rules::{rules_messages, RuleView, Rules};
use crate::scene::{SceneConfig, Scenes};
use crate::device::SceneId;

verus! {

/// Everything the dispatch loop owns: the registry, the immutable group,
/// scene and rule configuration, and the ids of the registered
/// integrations. All mutation happens through `handle_message`, one bus
/// message at a time, which keeps a strict total order on updates.
pub struct EngineState {
    pub devices: Devices,
    pub groups: Groups,
    pub scenes: Scenes,
    pub rules: Rules,
    pub registered: Vec<IntegrationId>,
}

/// What handling one message does: the registry afterwards, the messages
/// to enqueue onto the bus, and the device writes to forward to their
/// owning integrations.
pub open spec fn dispatch_transition(
    devices: Seq<DeviceView>,
    msg: MessageView,
    time: u64,
    scenes: Seq<(SceneId, SceneConfig)>,
    gc: Seq<(GroupId, GroupConfig)>,
    rules: Seq<RuleView>,
    registered: Seq<Seq<char>>,
) -> (Seq<DeviceView>, Seq<MessageView>, Seq<DeviceView>) {
    match msg {
        MessageView::IntegrationDeviceRefresh { device } => {
            let r = refresh_transition(devices, device, scenes, gc, registered);
            (r.0, r.1, Seq::empty())
        },
        MessageView::DeviceUpdate { old_state, new_state, old, new } => (
            devices,
            rules_messages(rules, old_state, new),
            Seq::empty(),
        ),
        MessageView::SetDeviceState { device, set_scene } => {
            let r = set_state_transition(devices, device, set_scene);
            (r.0, r.1, Seq::empty())
        },
        MessageView::SetIntegrationDeviceState { device } => (
            devices,
            Seq::empty(),
            if registered.contains(device.integration_id) {
                seq![device]
            } else {
                Seq::empty()
            },
        ),
        MessageView::ActivateScene { scene_id } => {
            let r = activate_transition(devices, scene_id, time, scenes, gc, registered);
            (r.0, r.1, Seq::empty())
        },
        MessageView::CycleScenes { scene_ids } => match next_scene(scene_ids, devices) {
            None => (devices, Seq::empty(), Seq::empty()),
            Some(sid) => {
                let r = activate_transition(devices, sid, time, scenes, gc, registered);
                (r.0, r.1, Seq::empty())
            },
        },
    }
}

impl EngineState {
    /// Well-formedness: the registry's keys are unique.
    pub open spec fn wf(self) -> bool {
        self.devices.wf()
    }

    pub fn new(groups: Groups, scenes: Scenes, rules: Rules, registered: Vec<IntegrationId>) -> (r:
        EngineState)
        ensures
            r.wf(),
            r.devices.devices@.len() == 0,
            r.groups == groups,
            r.scenes == scenes,
            r.rules == rules,
            r.registered == registered,
    {
        EngineState { devices: Devices::new(), groups, scenes, rules, registered }
    }

    /// Routes one bus message to the one subsystem responsible for it, per
    /// `dispatch_transition`. Returns the messages to enqueue onto the bus
    /// and the device writes to forward to their owning integrations. A
    /// write addressed to an unregistered integration is dropped.
    pub fn handle_message(&mut self, msg: Message, time: u64) -> (r: (Vec<Message>, Vec<Device>))
        requires
            old(self).wf(),
        ensures
            final(self).wf(),
            final(self).groups == old(self).groups,
            final(self).scenes == old(self).scenes,
            final(self).rules == old(self).rules,
            final(self).registered == old(self).registered,
            ({
                let t = dispatch_transition(
                    old(self).devices.devices.deep_view(),
                    msg@,
                    time,
                    old(self).scenes.config@,
                    old(self).groups.config@,
                    old(self).rules.config.deep_view(),
                    old(self).registered.deep_view(),
                );
                &&& final(self).devices.devices.deep_view() == t.0
                &&& r.0.deep_view() == t.1
                &&& r.1.deep_view() == t.2
            }),
    {
        match msg {
            Message::IntegrationDeviceRefresh { device } => {
                let msgs = self.devices.handle_integration_device_refresh(
                    &device,
                    &self.scenes,
                    &self.groups,
                    &self.registered,
                );
                let writes: Vec<Device> = Vec::new();
                proof {
                    assert(writes.deep_view() =~= Seq::<DeviceView>::empty());
                }
                (msgs, writes)
            },
            Message::DeviceUpdate { old_state, new, .. } => {
                let msgs = self.rules.handle_device_update(&old_state, &new);
                let writes: Vec<Device> = Vec::new();
                proof {
                    assert(writes.deep_view() =~= Seq::<DeviceView>::empty());
                }
                (msgs, writes)
            },
            Message::SetDeviceState { device, set_scene } => {
                let msgs = self.devices.set_device_state(&device, set_scene);
                let writes: Vec<Device> = Vec::new();
                proof {
                    assert(writes.deep_view() =~= Seq::<DeviceView>::empty());
                }
                (msgs, writes)
            },
            Message::SetIntegrationDeviceState { device } => {
                let msgs: Vec<Message> = Vec::new();
                let mut writes: Vec<Device> = Vec::new();
                proof {
                    assert(msgs.deep_view() =~= Seq::<MessageView>::empty());
                    assert(writes.deep_view() =~= Seq::<DeviceView>::empty());
                }
                if registered_contains(&self.registered, &device.integration_id) {
                    let ghost dv = device@;
                    writes.push(device);
                    proof {
                        assert(writes.deep_view() =~= seq![dv]);
                    }
                }
                (msgs, writes)
            },
            Message::ActivateScene { scene_id } => {
                let msgs = self.devices.activate_scene(
                    &scene_id,
                    time,
                    &self.scenes,
                    &self.groups,
                    &self.registered,
                );
                let writes: Vec<Device> = Vec::new();
                proof {
                    assert(writes.deep_view() =~= Seq::<DeviceView>::empty());
                }
                (msgs, writes)
            },
            Message::CycleScenes { scene_ids } => {
                let msgs = self.devices.cycle_scenes(
                    &scene_ids,
                    time,
                    &self.scenes,
                    &self.groups,
                    &self.registered,
                );
                let writes: Vec<Device> = Vec::new();
                proof {
                    assert(writes.deep_view() =~= Seq::<DeviceView>::empty());
                }
                (msgs, writes)
            },
        }
    }
}

} // verus!
