use vstd::prelude::*;
use crate::device::{Device, DeviceId, DeviceState, DeviceStateView, DeviceView, IntegrationId, SceneId};
use crate::message::{Message, MessageView};

verus! {

/// A trigger condition over one device transition: the device named by the
/// key must have reached `to_power`; with `from_power` set, the previous
/// state must have had exactly that power value.
#[derive(Clone, Debug)]
pub struct RuleTrigger {
    pub integration_id: IntegrationId,
    pub device_id: DeviceId,
    pub from_power: Option<bool>,
    pub to_power: bool,
}

/// Mathematical model of a [`RuleTrigger`].
pub ghost struct RuleTriggerView {
    pub integration_id: Seq<char>,
    pub device_id: Seq<char>,
    pub from_power: Option<bool>,
    pub to_power: bool,
}

impl View for RuleTrigger {
    type V = RuleTriggerView;

    open spec fn view(&self) -> RuleTriggerView {
        RuleTriggerView {
            integration_id: self.integration_id@,
            device_id: self.device_id@,
            from_power: self.from_power,
            to_power: self.to_power,
        }
    }
}

/// An action a rule emits onto the bus when its trigger matches.
#[derive(Clone, Debug)]
pub enum RuleAction {
    ActivateScene(SceneId),
    CycleScenes(Vec<SceneId>),
    SetDeviceState(Device),
}

/// Mathematical model of a [`RuleAction`].
pub ghost enum RuleActionView {
    ActivateScene(Seq<char>),
    CycleScenes(Seq<Seq<char>>),
    SetDeviceState(DeviceView),
}

impl View for RuleAction {
    type V = RuleActionView;

    open spec fn view(&self) -> RuleActionView {
        match self {
            RuleAction::ActivateScene(s) => RuleActionView::ActivateScene(s@),
            RuleAction::CycleScenes(ids) => RuleActionView::CycleScenes(ids.deep_view()),
            RuleAction::SetDeviceState(d) => RuleActionView::SetDeviceState(d@),
        }
    }
}

impl DeepView for RuleAction {
    type V = RuleActionView;

    open spec fn deep_view(&self) -> RuleActionView {
        self.view()
    }
}

/// One rule: a trigger condition paired with the actions it emits. Rules
/// are stateless; they never mutate the registry directly, they only emit
/// further bus messages.
#[derive(Clone, Debug)]
pub struct Rule {
    pub trigger: RuleTrigger,
    pub actions: Vec<RuleAction>,
}

/// Mathematical model of a [`Rule`].
pub ghost struct RuleView {
    pub trigger: RuleTriggerView,
    pub actions: Seq<RuleActionView>,
}

impl View for Rule {
    type V = RuleView;

    open spec fn view(&self) -> RuleView {
        RuleView { trigger: self.trigger@, actions: self.actions.deep_view() }
    }
}

impl DeepView for Rule {
    type V = RuleView;

    open spec fn deep_view(&self) -> RuleView {
        self.view()
    }
}

/// Whether a trigger matches one announced transition: the new record is
/// the named device, its state reached the demanded power, and, where the
/// trigger constrains it, the previous state had the demanded power.
pub open spec fn trigger_matches(
    t: RuleTriggerView,
    old_state: Option<DeviceStateView>,
    new: DeviceView,
) -> bool {
    &&& new.integration_id == t.integration_id
    &&& new.id == t.device_id
    &&& new.state.power_of() == Some(t.to_power)
    &&& match t.from_power {
        Some(p) => match old_state {
            Some(os) => os.power_of() == Some(p),
            None => false,
        },
        None => true,
    }
}

/// The bus message one action emits.
pub open spec fn action_message(a: RuleActionView) -> MessageView {
    match a {
        RuleActionView::ActivateScene(sid) => MessageView::ActivateScene { scene_id: sid },
        RuleActionView::CycleScenes(ids) => MessageView::CycleScenes { scene_ids: ids },
        RuleActionView::SetDeviceState(d) => MessageView::SetDeviceState {
            device: d,
            set_scene: false,
        },
    }
}

/// The messages a list of actions emits, in order.
pub open spec fn action_messages(actions: Seq<RuleActionView>) -> Seq<MessageView> {
    actions.map_values(|a: RuleActionView| action_message(a))
}

/// The messages the whole rule list emits for one transition: each matching
/// rule's actions exactly once, in configuration order; nothing from rules
/// whose trigger does not match.
pub open spec fn rules_messages(
    rules: Seq<RuleView>,
    old_state: Option<DeviceStateView>,
    new: DeviceView,
) -> Seq<MessageView>
    decreases rules.len(),
{
    if rules.len() == 0 {
        Seq::empty()
    } else {
        let head = if trigger_matches(rules[0].trigger, old_state, new) {
            action_messages(rules[0].actions)
        } else {
            Seq::empty()
        };
        head + rules_messages(rules.drop_first(), old_state, new)
    }
}

/// The rule subsystem: the rule list, loaded once at startup and immutable
/// for the process lifetime.
pub struct Rules {
    pub config: Vec<Rule>,
}

impl Rules {
    pub fn new(config: Vec<Rule>) -> (r: Rules)
        ensures
            r.config == config,
    {
        Rules { config }
    }

    /// Evaluates every rule against one announced transition and returns
    /// the matching rules' action messages, in configuration order.
    #[verifier::loop_isolation(false)]
    pub fn handle_device_update(
        &self,
        old_state: &Option<DeviceState>,
        new: &Device,
    ) -> (msgs: Vec<Message>)
        ensures
            msgs.deep_view() == rules_messages(
                self.config.deep_view(),
                match old_state {
                    Some(s) => Some(s@),
                    None => None,
                },
                new@,
            ),
    {
        let ghost rv = self.config.deep_view();
        let ghost osv: Option<DeviceStateView> = match old_state {
            Some(s) => Some(s@),
            None => None,
        };
        let mut msgs: Vec<Message> = Vec::new();
        proof {
            assert(rv.skip(0) =~= rv);
            assert(msgs.deep_view() + rules_messages(rv, osv, new@) =~= rules_messages(
                rv,
                osv,
                new@,
            ));
        }
        let mut i: usize = 0;
        while i < self.config.len()
            invariant
                i <= self.config.len(),
                msgs.deep_view() + rules_messages(rv.skip(i as int), osv, new@)
                    == rules_messages(rv, osv, new@),
            decreases self.config.len() - i,
        {
            proof {
                assert(rv.skip(i as int).len() > 0);
                assert(rv.skip(i as int)[0] == rv[i as int]);
                assert(rv.skip(i as int).drop_first() =~= rv.skip(i as int + 1));
            }
            let rule = &self.config[i];
            proof {
                assert(rule@ == rv[i as int]);
            }
            if Self::trigger_matches_exec(&rule.trigger, old_state, new) {
                let ghost pre_m = msgs.deep_view();
                let mut j: usize = 0;
                while j < rule.actions.len()
                    invariant
                        j <= rule.actions.len(),
                        msgs.deep_view() =~= pre_m + action_messages(
                            rule@.actions.take(j as int),
                        ),
                    decreases rule.actions.len() - j,
                {
                    let ghost pre_m2 = msgs.deep_view();
                    let a = &rule.actions[j];
                    proof {
                        assert(a@ == rule@.actions[j as int]);
                    }
                    let m = match a {
                        RuleAction::ActivateScene(sid) => Message::ActivateScene {
                            scene_id: sid.clone(),
                        },
                        RuleAction::CycleScenes(ids) => Message::CycleScenes {
                            scene_ids: clone_scene_ids(ids),
                        },
                        RuleAction::SetDeviceState(d) => Message::SetDeviceState {
                            device: d.clone(),
                            set_scene: false,
                        },
                    };
                    proof {
                        assert(m@ == action_message(rule@.actions[j as int]));
                    }
                    msgs.push(m);
                    proof {
                        assert(msgs.deep_view() =~= pre_m2.push(
                            action_message(rule@.actions[j as int]),
                        ));
                        assert(rule@.actions.take(j as int + 1) =~= rule@.actions.take(
                            j as int,
                        ).push(rule@.actions[j as int]));
                        assert(action_messages(rule@.actions.take(j as int + 1))
                            =~= action_messages(rule@.actions.take(j as int)).push(
                            action_message(rule@.actions[j as int]),
                        ));
                    }
                    j += 1;
                }
                proof {
                    assert(rule@.actions.take(rule.actions@.len() as int) =~= rule@.actions);
                    assert(msgs.deep_view() =~= pre_m + action_messages(rule@.actions));
                }
            }
            i += 1;
        }
        proof {
            assert(rv.skip(self.config.len() as int).len() == 0);
            assert(msgs.deep_view() + Seq::<MessageView>::empty() =~= msgs.deep_view());
        }
        msgs
    }

    /// Decides whether a trigger matches one transition.
    fn trigger_matches_exec(
        t: &RuleTrigger,
        old_state: &Option<DeviceState>,
        new: &Device,
    ) -> (r: bool)
        ensures
            r == trigger_matches(
                t@,
                match old_state {
                    Some(s) => Some(s@),
                    None => None,
                },
                new@,
            ),
    {
        if !new.integration_id.eq(&t.integration_id) {
            return false;
        }
        if !new.id.eq(&t.device_id) {
            return false;
        }
        let power_ok = match new.state.power_of() {
            Some(p) => p == t.to_power,
            None => false,
        };
        if !power_ok {
            return false;
        }
        match t.from_power {
            Some(p) => match old_state {
                Some(os) => match os.power_of() {
                    Some(op) => op == p,
                    None => false,
                },
                None => false,
            },
            None => true,
        }
    }
}

/// Element-wise copy of a scene id list.
fn clone_scene_ids(ids: &Vec<SceneId>) -> (r: Vec<SceneId>)
    ensures
        r.deep_view() == ids.deep_view(),
        r@ == ids@,
{
    let mut r: Vec<SceneId> = Vec::new();
    let mut i: usize = 0;
    while i < ids.len()
        invariant
            i <= ids.len(),
            r@ =~= ids@.subrange(0, i as int),
        decreases ids.len() - i,
    {
        let ghost pre = r@;
        r.push(ids[i].clone());
        proof {
            assert(r@ =~= pre.push(ids@[i as int]));
        }
        i += 1;
    }
    proof {
        assert(r@ =~= ids@);
        assert(r.deep_view() =~= ids.deep_view());
    }
    r
}

} // verus!
