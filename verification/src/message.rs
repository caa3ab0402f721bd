use vstd::prelude::*;
use crate::device::{Device, DeviceState, DeviceStateView, DeviceView, SceneId};

verus! {

/// The tagged variants carried by the message bus. Every subsystem
/// communicates only by enqueuing these; the dispatch loop is the sole
/// consumer and routes each to exactly one handler.
#[derive(Clone, Debug)]
pub enum Message {
    /// An integration reports a device's current (or initial) state.
    IntegrationDeviceRefresh { device: Device },
    /// The registry accepted a change: the device transitioned between the
    /// given old and new records.
    DeviceUpdate {
        old_state: Option<DeviceState>,
        new_state: DeviceState,
        old: Option<Device>,
        new: Device,
    },
    /// Intent: set a device's desired state; `set_scene` tells whether the
    /// request originates from scene activation.
    SetDeviceState { device: Device, set_scene: bool },
    /// The registry asks the owning integration to perform a physical write.
    SetIntegrationDeviceState { device: Device },
    /// Activate the named scene.
    ActivateScene { scene_id: SceneId },
    /// Activate the scene after the currently active one in the given order.
    CycleScenes { scene_ids: Vec<SceneId> },
}

/// Mathematical model of a [`Message`].
pub ghost enum MessageView {
    IntegrationDeviceRefresh { device: DeviceView },
    DeviceUpdate {
        old_state: Option<DeviceStateView>,
        new_state: DeviceStateView,
        old: Option<DeviceView>,
        new: DeviceView,
    },
    SetDeviceState { device: DeviceView, set_scene: bool },
    SetIntegrationDeviceState { device: DeviceView },
    ActivateScene { scene_id: Seq<char> },
    CycleScenes { scene_ids: Seq<Seq<char>> },
}

impl View for Message {
    type V = MessageView;

    open spec fn view(&self) -> MessageView {
        match self {
            Message::IntegrationDeviceRefresh { device } => {
                MessageView::IntegrationDeviceRefresh { device: device@ }
            }
            Message::DeviceUpdate { old_state, new_state, old, new } => {
                MessageView::DeviceUpdate {
                    old_state: match old_state {
                        Some(s) => Some(s@),
                        None => None,
                    },
                    new_state: new_state@,
                    old: match old {
                        Some(d) => Some(d@),
                        None => None,
                    },
                    new: new@,
                }
            }
            Message::SetDeviceState { device, set_scene } => {
                MessageView::SetDeviceState { device: device@, set_scene: *set_scene }
            }
            Message::SetIntegrationDeviceState { device } => {
                MessageView::SetIntegrationDeviceState { device: device@ }
            }
            Message::ActivateScene { scene_id } => {
                MessageView::ActivateScene { scene_id: scene_id@ }
            }
            Message::CycleScenes { scene_ids } => {
                MessageView::CycleScenes { scene_ids: scene_ids.deep_view() }
            }
        }
    }
}

impl DeepView for Message {
    type V = MessageView;

    open spec fn deep_view(&self) -> MessageView {
        self.view()
    }
}

} // verus!
