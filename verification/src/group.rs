use vstd::prelude::*;
use vstd::string::StringExecFns;
use crate::device::{Device, DeviceId, DeviceKey, DeviceKeyView, DeviceView, IntegrationId};

verus! {

/// Identifies one group of devices.
#[derive(Debug)]
pub struct GroupId(pub String);

impl Clone for GroupId {
    fn clone(&self) -> (r: GroupId)
        ensures
            r == *self,
    {
        GroupId(self.0.clone())
    }
}

impl View for GroupId {
    type V = Seq<char>;

    open spec fn view(&self) -> Seq<char> {
        self.0@
    }
}

impl DeepView for GroupId {
    type V = Seq<char>;

    open spec fn deep_view(&self) -> Seq<char> {
        self.0@
    }
}

impl GroupId {
    pub fn new(id: String) -> (r: GroupId)
        ensures
            r@ == id@,
    {
        GroupId(id)
    }

    pub fn from_str(s: &str) -> (r: GroupId)
        ensures
            r@ == s@,
    {
        GroupId(s.to_owned())
    }

    /// Decides whether two group ids are the same.
    pub fn group_eq(&self, other: &GroupId) -> (r: bool)
        ensures
            r == (self@ == other@),
    {
        self.0 == other.0
    }
}

/// A direct device reference inside a group: the owning integration, and
/// either an explicit device id or a device name to match against known
/// devices at flatten time.
#[derive(Clone, Debug)]
pub struct GroupDeviceLink {
    pub integration_id: IntegrationId,
    pub device_id: Option<DeviceId>,
    pub name: Option<String>,
}

/// Mathematical model of a [`GroupDeviceLink`].
pub ghost struct GroupDeviceLinkView {
    pub integration_id: Seq<char>,
    pub device_id: Option<Seq<char>>,
    pub name: Option<Seq<char>>,
}

impl View for GroupDeviceLink {
    type V = GroupDeviceLinkView;

    open spec fn view(&self) -> GroupDeviceLinkView {
        GroupDeviceLinkView {
            integration_id: self.integration_id@,
            device_id: match self.device_id {
                Some(d) => Some(d@),
                None => None,
            },
            name: match self.name {
                Some(n) => Some(n@),
                None => None,
            },
        }
    }
}

impl DeepView for GroupDeviceLink {
    type V = GroupDeviceLinkView;

    open spec fn deep_view(&self) -> GroupDeviceLinkView {
        self.view()
    }
}

/// A reference from one group to a nested group.
#[derive(Clone, Debug)]
pub struct GroupLink {
    pub group_id: GroupId,
}

impl View for GroupLink {
    type V = Seq<char>;

    open spec fn view(&self) -> Seq<char> {
        self.group_id@
    }
}

impl DeepView for GroupLink {
    type V = Seq<char>;

    open spec fn deep_view(&self) -> Seq<char> {
        self.group_id@
    }
}

/// One group definition: a name, direct device links, and nested group
/// references. The reference graph must be acyclic; flattening rejects
/// cycles per group.
#[derive(Clone, Debug)]
pub struct GroupConfig {
    pub name: String,
    pub devices: Option<Vec<GroupDeviceLink>>,
    pub groups: Option<Vec<GroupLink>>,
}

/// Mathematical model of a [`GroupConfig`]; an absent link list models as
/// the empty sequence.
pub ghost struct GroupConfigView {
    pub name: Seq<char>,
    pub devices: Seq<GroupDeviceLinkView>,
    pub groups: Seq<Seq<char>>,
}

impl View for GroupConfig {
    type V = GroupConfigView;

    open spec fn view(&self) -> GroupConfigView {
        GroupConfigView {
            name: self.name@,
            devices: match self.devices {
                Some(v) => v.deep_view(),
                None => Seq::empty(),
            },
            groups: match self.groups {
                Some(v) => v.deep_view(),
                None => Seq::empty(),
            },
        }
    }
}

/// The resolved, acyclic result of flattening one group: its name and the
/// ordered, deduplicated device keys it contains.
#[derive(Clone, Debug)]
pub struct FlattenedGroupConfig {
    pub name: String,
    pub device_ids: Vec<DeviceKey>,
}

/// Mathematical model of a [`FlattenedGroupConfig`].
pub ghost struct FlattenedGroupConfigView {
    pub name: Seq<char>,
    pub device_ids: Seq<DeviceKeyView>,
}

impl View for FlattenedGroupConfig {
    type V = FlattenedGroupConfigView;

    open spec fn view(&self) -> FlattenedGroupConfigView {
        FlattenedGroupConfigView { name: self.name@, device_ids: self.device_ids.deep_view() }
    }
}

/// The group configuration table, as loaded at startup.
pub type GroupsConfig = Vec<(GroupId, GroupConfig)>;

/// The ids of all defined groups.
pub open spec fn group_ids_of(configs: Seq<(GroupId, GroupConfig)>) -> Set<Seq<char>> {
    configs.map_values(|p: (GroupId, GroupConfig)| p.0@).to_set()
}

/// First index of the group with the given id, or -1.
pub open spec fn find_group(configs: Seq<(GroupId, GroupConfig)>, id: Seq<char>) -> int
    decreases configs.len(),
{
    if configs.len() == 0 {
        -1
    } else if configs[0].0@ == id {
        0
    } else {
        let r = find_group(configs.drop_first(), id);
        if r < 0 {
            -1
        } else {
            r + 1
        }
    }
}

/// `find_group` returns the first matching index, or -1 when no entry
/// matches.
pub proof fn lemma_find_group_props(configs: Seq<(GroupId, GroupConfig)>, id: Seq<char>)
    ensures
        find_group(configs, id) >= 0 ==> {
            &&& find_group(configs, id) < configs.len()
            &&& configs[find_group(configs, id)].0@ == id
            &&& forall|j: int| 0 <= j < find_group(configs, id) ==> configs[j].0@ != id
        },
        find_group(configs, id) < 0 ==> forall|j: int|
            0 <= j < configs.len() ==> configs[j].0@ != id,
        (find_group(configs, id) >= 0) == group_ids_of(configs).contains(id),
    decreases configs.len(),
{
    if configs.len() > 0 && configs[0].0@ != id {
        lemma_find_group_props(configs.drop_first(), id);
        let fd = find_group(configs.drop_first(), id);
        if fd >= 0 {
            assert(configs[fd + 1] == configs.drop_first()[fd]);
            assert forall|j: int| 0 <= j < fd + 1 implies configs[j].0@ != id by {
                if j > 0 {
                    assert(configs[j] == configs.drop_first()[j - 1]);
                }
            }
        } else {
            assert forall|j: int| 0 <= j < configs.len() implies configs[j].0@ != id by {
                if j > 0 {
                    assert(configs[j] == configs.drop_first()[j - 1]);
                }
            }
        }
    }
    let m = configs.map_values(|p: (GroupId, GroupConfig)| p.0@);
    let f = find_group(configs, id);
    if f >= 0 {
        assert(m[f] == id);
        assert(m.contains(id));
    } else {
        if group_ids_of(configs).contains(id) {
            assert(m.contains(id));
            let j = choose|j: int| 0 <= j < m.len() && m[j] == id;
            assert(configs[j].0@ == id);
        }
    }
}

/// Adds a key to an ordered set of keys: appended only if not yet present.
pub open spec fn add_key(s: Seq<DeviceKeyView>, k: DeviceKeyView) -> Seq<DeviceKeyView> {
    if s.contains(k) {
        s
    } else {
        s.push(k)
    }
}

/// Merges an ordered key set into another, keeping order of first occurrence.
pub open spec fn merge_keys(acc: Seq<DeviceKeyView>, more: Seq<DeviceKeyView>) -> Seq<
    DeviceKeyView,
>
    decreases more.len(),
{
    if more.len() == 0 {
        acc
    } else {
        merge_keys(add_key(acc, more[0]), more.drop_first())
    }
}

/// First index among the known devices of one with the given integration id
/// and name, or -1. Name links in group configurations resolve through this.
pub open spec fn find_device_by_name(
    kn: Seq<DeviceView>,
    integration_id: Seq<char>,
    name: Seq<char>,
) -> int
    decreases kn.len(),
{
    if kn.len() == 0 {
        -1
    } else if kn[0].integration_id == integration_id && kn[0].name == name {
        0
    } else {
        let r = find_device_by_name(kn.drop_first(), integration_id, name);
        if r < 0 {
            -1
        } else {
            r + 1
        }
    }
}

/// `find_device_by_name` returns the first matching index, or -1 when no
/// device matches.
pub proof fn lemma_find_device_by_name_props(
    kn: Seq<DeviceView>,
    integration_id: Seq<char>,
    name: Seq<char>,
)
    ensures
        find_device_by_name(kn, integration_id, name) >= 0 ==> {
            &&& find_device_by_name(kn, integration_id, name) < kn.len()
            &&& kn[find_device_by_name(kn, integration_id, name)].integration_id
                == integration_id
            &&& kn[find_device_by_name(kn, integration_id, name)].name == name
            &&& forall|j: int|
                0 <= j < find_device_by_name(kn, integration_id, name) ==> !(
                kn[j].integration_id == integration_id && kn[j].name == name)
        },
        find_device_by_name(kn, integration_id, name) < 0 ==> forall|j: int|
            0 <= j < kn.len() ==> !(kn[j].integration_id == integration_id && kn[j].name
                == name),
    decreases kn.len(),
{
    if kn.len() > 0 && !(kn[0].integration_id == integration_id && kn[0].name == name) {
        lemma_find_device_by_name_props(kn.drop_first(), integration_id, name);
        let fd = find_device_by_name(kn.drop_first(), integration_id, name);
        if fd >= 0 {
            assert(kn[fd + 1] == kn.drop_first()[fd]);
            assert forall|j: int| 0 <= j < fd + 1 implies !(kn[j].integration_id
                == integration_id && kn[j].name == name) by {
                if j > 0 {
                    assert(kn[j] == kn.drop_first()[j - 1]);
                }
            }
        } else {
            assert forall|j: int| 0 <= j < kn.len() implies !(kn[j].integration_id
                == integration_id && kn[j].name == name) by {
                if j > 0 {
                    assert(kn[j] == kn.drop_first()[j - 1]);
                }
            }
        }
    }
}

/// What one direct device link resolves to: nothing if the integration is
/// unregistered; the explicit key if the link names a device id; else the
/// key of the first known device of that integration with the given name;
/// nothing if no device matches or the link has neither id nor name.
pub open spec fn resolve_link(
    link: GroupDeviceLinkView,
    registered: Seq<Seq<char>>,
    kn: Seq<DeviceView>,
) -> Option<DeviceKeyView> {
    if !registered.contains(link.integration_id) {
        None
    } else {
        match link.device_id {
            Some(d) => Some(DeviceKeyView { integration_id: link.integration_id, device_id: d }),
            None => match link.name {
                Some(n) => {
                    let i = find_device_by_name(kn, link.integration_id, n);
                    if i < 0 {
                        None
                    } else {
                        Some(kn[i].key())
                    }
                },
                None => None,
            },
        }
    }
}

/// The ordered key set collected from a group's direct device links,
/// appended to `acc`: resolvable links in order, deduplicated.
pub open spec fn direct_keys(
    links: Seq<GroupDeviceLinkView>,
    registered: Seq<Seq<char>>,
    kn: Seq<DeviceView>,
    acc: Seq<DeviceKeyView>,
) -> Seq<DeviceKeyView>
    decreases links.len(),
{
    if links.len() == 0 {
        acc
    } else {
        let acc2 = match resolve_link(links[0], registered, kn) {
            Some(k) => add_key(acc, k),
            None => acc,
        };
        direct_keys(links.drop_first(), registered, kn, acc2)
    }
}

/// Flattening one group by depth-first expansion, carrying the set of group
/// ids on the current path: `None` if the id is on the path (a cycle) or
/// undefined, else the group's direct keys followed by the keys of its
/// nested groups, deduplicated in order of first occurrence.
pub open spec fn flatten_group_spec(
    configs: Seq<(GroupId, GroupConfig)>,
    registered: Seq<Seq<char>>,
    kn: Seq<DeviceView>,
    id: Seq<char>,
    path: Set<Seq<char>>,
) -> Option<Seq<DeviceKeyView>>
    decreases group_ids_of(configs).difference(path).len(), 0nat, 1nat,
        when path.finite() && path.subset_of(group_ids_of(configs))
    via flatten_group_spec_dec
{
    if path.contains(id) {
        None
    } else {
        let i = find_group(configs, id);
        if i < 0 {
            None
        } else {
            let direct = direct_keys(configs[i].1@.devices, registered, kn, Seq::empty());
            flatten_links_spec(
                configs,
                registered,
                kn,
                configs[i].1@.groups,
                path.insert(id),
                direct,
            )
        }
    }
}

/// Flattening a list of nested group references in order, merging each
/// nested group's keys into `acc`: references to undefined groups are
/// skipped; a cycle anywhere below yields `None` for the whole group.
pub open spec fn flatten_links_spec(
    configs: Seq<(GroupId, GroupConfig)>,
    registered: Seq<Seq<char>>,
    kn: Seq<DeviceView>,
    links: Seq<Seq<char>>,
    path: Set<Seq<char>>,
    acc: Seq<DeviceKeyView>,
) -> Option<Seq<DeviceKeyView>>
    decreases group_ids_of(configs).difference(path).len(), links.len(), 0nat,
        when path.finite() && path.subset_of(group_ids_of(configs))
{
    if links.len() == 0 {
        Some(acc)
    } else {
        let child = links[0];
        if find_group(configs, child) < 0 {
            flatten_links_spec(configs, registered, kn, links.drop_first(), path, acc)
        } else {
            match flatten_group_spec(configs, registered, kn, child, path) {
                None => None,
                Some(keys) => flatten_links_spec(
                    configs,
                    registered,
                    kn,
                    links.drop_first(),
                    path,
                    merge_keys(acc, keys),
                ),
            }
        }
    }
}

#[via_fn]
proof fn flatten_group_spec_dec(
    configs: Seq<(GroupId, GroupConfig)>,
    registered: Seq<Seq<char>>,
    kn: Seq<DeviceView>,
    id: Seq<char>,
    path: Set<Seq<char>>,
) {
    broadcast use vstd::seq_lib::seq_to_set_is_finite;

    if !path.contains(id) && find_group(configs, id) >= 0 {
        lemma_find_group_props(configs, id);
        lemma_path_insert_shrinks(configs, id, path);
    }
}

/// Inserting a defined, not-yet-visited group id into the path strictly
/// shrinks the set of group ids not on the path.
proof fn lemma_path_insert_shrinks(
    configs: Seq<(GroupId, GroupConfig)>,
    id: Seq<char>,
    path: Set<Seq<char>>,
)
    requires
        path.finite(),
        path.subset_of(group_ids_of(configs)),
        group_ids_of(configs).contains(id),
        !path.contains(id),
    ensures
        path.insert(id).finite(),
        path.insert(id).subset_of(group_ids_of(configs)),
        group_ids_of(configs).difference(path.insert(id)).len() < group_ids_of(
            configs,
        ).difference(path).len(),
{
    broadcast use vstd::seq_lib::seq_to_set_is_finite;

    let ids = group_ids_of(configs);
    assert(ids.difference(path.insert(id)) =~= ids.difference(path).remove(id));
    assert(ids.difference(path).contains(id));
    assert(ids.difference(path).finite());
}

/// Every key in an ordered key set belongs to a registered integration.
pub open spec fn keys_registered(keys: Seq<DeviceKeyView>, registered: Seq<Seq<char>>) -> bool {
    forall|i: int|
        0 <= i < keys.len() ==> registered.contains((#[trigger] keys[i]).integration_id)
}

proof fn lemma_add_key_registered(s: Seq<DeviceKeyView>, k: DeviceKeyView, registered: Seq<Seq<char>>)
    requires
        keys_registered(s, registered),
        registered.contains(k.integration_id),
    ensures
        keys_registered(add_key(s, k), registered),
{
    if !s.contains(k) {
        assert forall|i: int| 0 <= i < s.push(k).len() implies registered.contains(
            (#[trigger] s.push(k)[i]).integration_id,
        ) by {
            if i < s.len() {
                assert(s.push(k)[i] == s[i]);
            }
        }
    }
}

proof fn lemma_merge_keys_registered(
    acc: Seq<DeviceKeyView>,
    more: Seq<DeviceKeyView>,
    registered: Seq<Seq<char>>,
)
    requires
        keys_registered(acc, registered),
        keys_registered(more, registered),
    ensures
        keys_registered(merge_keys(acc, more), registered),
    decreases more.len(),
{
    if more.len() > 0 {
        lemma_add_key_registered(acc, more[0], registered);
        assert(keys_registered(more.drop_first(), registered)) by {
            assert forall|i: int| 0 <= i < more.drop_first().len() implies registered.contains(
                (#[trigger] more.drop_first()[i]).integration_id,
            ) by {
                assert(more.drop_first()[i] == more[i + 1]);
            }
        }
        lemma_merge_keys_registered(add_key(acc, more[0]), more.drop_first(), registered);
    }
}

proof fn lemma_direct_keys_registered(
    links: Seq<GroupDeviceLinkView>,
    registered: Seq<Seq<char>>,
    kn: Seq<DeviceView>,
    acc: Seq<DeviceKeyView>,
)
    requires
        keys_registered(acc, registered),
    ensures
        keys_registered(direct_keys(links, registered, kn, acc), registered),
    decreases links.len(),
{
    if links.len() > 0 {
        let acc2 = match resolve_link(links[0], registered, kn) {
            Some(k) => add_key(acc, k),
            None => acc,
        };
        match resolve_link(links[0], registered, kn) {
            Some(k) => {
                assert(registered.contains(k.integration_id)) by {
                    lemma_find_device_by_name_props(
                        kn,
                        links[0].integration_id,
                        match links[0].name {
                            Some(n) => n,
                            None => Seq::empty(),
                        },
                    );
                }
                lemma_add_key_registered(acc, k, registered);
            },
            None => {},
        }
        lemma_direct_keys_registered(links.drop_first(), registered, kn, acc2);
    }
}

/// An invariant of flattening: a flattened group never contains a key
/// whose integration is unregistered; such links are dropped.
pub proof fn lemma_flatten_registered(
    configs: Seq<(GroupId, GroupConfig)>,
    registered: Seq<Seq<char>>,
    kn: Seq<DeviceView>,
    id: Seq<char>,
    path: Set<Seq<char>>,
)
    requires
        path.finite(),
        path.subset_of(group_ids_of(configs)),
    ensures
        match flatten_group_spec(configs, registered, kn, id, path) {
            Some(keys) => keys_registered(keys, registered),
            None => true,
        },
    decreases group_ids_of(configs).difference(path).len(), 0nat, 1nat,
{
    broadcast use vstd::seq_lib::seq_to_set_is_finite;

    if !path.contains(id) {
        let i = find_group(configs, id);
        if i >= 0 {
            lemma_find_group_props(configs, id);
            lemma_path_insert_shrinks(configs, id, path);
            lemma_direct_keys_registered(configs[i].1@.devices, registered, kn, Seq::empty());
            lemma_flatten_links_registered(
                configs,
                registered,
                kn,
                configs[i].1@.groups,
                path.insert(id),
                direct_keys(configs[i].1@.devices, registered, kn, Seq::empty()),
            );
        }
    }
}

/// Companion to `lemma_flatten_registered` for nested link lists.
proof fn lemma_flatten_links_registered(
    configs: Seq<(GroupId, GroupConfig)>,
    registered: Seq<Seq<char>>,
    kn: Seq<DeviceView>,
    links: Seq<Seq<char>>,
    path: Set<Seq<char>>,
    acc: Seq<DeviceKeyView>,
)
    requires
        path.finite(),
        path.subset_of(group_ids_of(configs)),
        keys_registered(acc, registered),
    ensures
        match flatten_links_spec(configs, registered, kn, links, path, acc) {
            Some(keys) => keys_registered(keys, registered),
            None => true,
        },
    decreases group_ids_of(configs).difference(path).len(), links.len(), 0nat,
{
    if links.len() > 0 {
        let child = links[0];
        if find_group(configs, child) < 0 {
            lemma_flatten_links_registered(
                configs,
                registered,
                kn,
                links.drop_first(),
                path,
                acc,
            );
        } else {
            lemma_flatten_registered(configs, registered, kn, child, path);
            match flatten_group_spec(configs, registered, kn, child, path) {
                None => {},
                Some(keys) => {
                    lemma_merge_keys_registered(acc, keys, registered);
                    lemma_flatten_links_registered(
                        configs,
                        registered,
                        kn,
                        links.drop_first(),
                        path,
                        merge_keys(acc, keys),
                    );
                },
            }
        }
    }
}

/// Name lookup reads only identity fields: it is equal on profile-equal
/// snapshots.
proof fn lemma_find_by_name_profiles(
    kn1: Seq<DeviceView>,
    kn2: Seq<DeviceView>,
    integration_id: Seq<char>,
    name: Seq<char>,
)
    requires
        crate::device::same_profiles(kn1, kn2),
    ensures
        find_device_by_name(kn1, integration_id, name) == find_device_by_name(
            kn2,
            integration_id,
            name,
        ),
    decreases kn1.len(),
{
    if kn1.len() > 0 {
        assert(crate::device::same_profiles(kn1.drop_first(), kn2.drop_first())) by {
            assert forall|i: int| 0 <= i < kn1.drop_first().len() implies {
                &&& (#[trigger] kn1.drop_first()[i]).id == kn2.drop_first()[i].id
                &&& kn1.drop_first()[i].name == kn2.drop_first()[i].name
                &&& kn1.drop_first()[i].integration_id == kn2.drop_first()[i].integration_id
            } by {
                assert(kn1.drop_first()[i] == kn1[i + 1]);
                assert(kn2.drop_first()[i] == kn2[i + 1]);
            }
        }
        lemma_find_by_name_profiles(kn1.drop_first(), kn2.drop_first(), integration_id, name);
    }
}

/// Link resolution reads only identity fields of the known devices.
proof fn lemma_resolve_link_profiles(
    link: GroupDeviceLinkView,
    registered: Seq<Seq<char>>,
    kn1: Seq<DeviceView>,
    kn2: Seq<DeviceView>,
)
    requires
        crate::device::same_profiles(kn1, kn2),
    ensures
        resolve_link(link, registered, kn1) == resolve_link(link, registered, kn2),
{
    match link.name {
        Some(n) => {
            lemma_find_by_name_profiles(kn1, kn2, link.integration_id, n);
            lemma_find_device_by_name_props(kn1, link.integration_id, n);
            let i = find_device_by_name(kn1, link.integration_id, n);
            if i >= 0 {
                assert(i < kn1.len());
                assert(kn1[i].key() == kn2[i].key());
            }
        },
        None => {},
    }
}

/// Direct key collection reads only identity fields of the known devices.
proof fn lemma_direct_keys_profiles(
    links: Seq<GroupDeviceLinkView>,
    registered: Seq<Seq<char>>,
    kn1: Seq<DeviceView>,
    kn2: Seq<DeviceView>,
    acc: Seq<DeviceKeyView>,
)
    requires
        crate::device::same_profiles(kn1, kn2),
    ensures
        direct_keys(links, registered, kn1, acc) == direct_keys(links, registered, kn2, acc),
    decreases links.len(),
{
    if links.len() > 0 {
        lemma_resolve_link_profiles(links[0], registered, kn1, kn2);
        let acc2 = match resolve_link(links[0], registered, kn1) {
            Some(k) => add_key(acc, k),
            None => acc,
        };
        lemma_direct_keys_profiles(links.drop_first(), registered, kn1, kn2, acc2);
    }
}

/// Flattening reads only identity fields of the known devices: it is equal
/// on profile-equal snapshots.
pub proof fn lemma_flatten_profiles(
    configs: Seq<(GroupId, GroupConfig)>,
    registered: Seq<Seq<char>>,
    kn1: Seq<DeviceView>,
    kn2: Seq<DeviceView>,
    id: Seq<char>,
    path: Set<Seq<char>>,
)
    requires
        path.finite(),
        path.subset_of(group_ids_of(configs)),
        crate::device::same_profiles(kn1, kn2),
    ensures
        flatten_group_spec(configs, registered, kn1, id, path) == flatten_group_spec(
            configs,
            registered,
            kn2,
            id,
            path,
        ),
    decreases group_ids_of(configs).difference(path).len(), 0nat, 1nat,
{
    broadcast use vstd::seq_lib::seq_to_set_is_finite;

    if !path.contains(id) {
        let i = find_group(configs, id);
        if i >= 0 {
            lemma_find_group_props(configs, id);
            lemma_path_insert_shrinks(configs, id, path);
            lemma_direct_keys_profiles(configs[i].1@.devices, registered, kn1, kn2, Seq::empty());
            lemma_flatten_links_profiles(
                configs,
                registered,
                kn1,
                kn2,
                configs[i].1@.groups,
                path.insert(id),
                direct_keys(configs[i].1@.devices, registered, kn1, Seq::empty()),
            );
        }
    }
}

/// Companion to `lemma_flatten_profiles` for nested link lists.
proof fn lemma_flatten_links_profiles(
    configs: Seq<(GroupId, GroupConfig)>,
    registered: Seq<Seq<char>>,
    kn1: Seq<DeviceView>,
    kn2: Seq<DeviceView>,
    links: Seq<Seq<char>>,
    path: Set<Seq<char>>,
    acc: Seq<DeviceKeyView>,
)
    requires
        path.finite(),
        path.subset_of(group_ids_of(configs)),
        crate::device::same_profiles(kn1, kn2),
    ensures
        flatten_links_spec(configs, registered, kn1, links, path, acc) == flatten_links_spec(
            configs,
            registered,
            kn2,
            links,
            path,
            acc,
        ),
    decreases group_ids_of(configs).difference(path).len(), links.len(), 0nat,
{
    if links.len() > 0 {
        let child = links[0];
        if find_group(configs, child) < 0 {
            lemma_flatten_links_profiles(
                configs,
                registered,
                kn1,
                kn2,
                links.drop_first(),
                path,
                acc,
            );
        } else {
            lemma_flatten_profiles(configs, registered, kn1, kn2, child, path);
            match flatten_group_spec(configs, registered, kn1, child, path) {
                None => {},
                Some(keys) => {
                    lemma_flatten_links_profiles(
                        configs,
                        registered,
                        kn1,
                        kn2,
                        links.drop_first(),
                        path,
                        merge_keys(acc, keys),
                    );
                },
            }
        }
    }
}

/// Appending an element to a sequence inserts it into the sequence's set.
proof fn lemma_push_to_set(s: Seq<Seq<char>>, x: Seq<char>)
    ensures
        s.push(x).to_set() =~= s.to_set().insert(x),
{
    let p = s.push(x);
    assert forall|y: Seq<char>| p.to_set().contains(y) implies s.to_set().insert(x).contains(
        y,
    ) by {
        let j = choose|j: int| 0 <= j < p.len() && p[j] == y;
        if j < s.len() {
            assert(s[j] == y);
            assert(s.contains(y));
        }
    }
    assert forall|y: Seq<char>| s.to_set().insert(x).contains(y) implies p.to_set().contains(
        y,
    ) by {
        if y == x {
            assert(p[s.len() as int] == y);
            assert(p.contains(y));
        } else {
            let j = choose|j: int| 0 <= j < s.len() && s[j] == y;
            assert(p[j] == y);
            assert(p.contains(y));
        }
    }
}

/// Decides membership of an integration id in the registered list.
pub fn registered_contains(registered: &Vec<IntegrationId>, id: &IntegrationId) -> (r: bool)
    ensures
        r == registered.deep_view().contains(id@),
{
    let mut i: usize = 0;
    while i < registered.len()
        invariant
            i <= registered.len(),
            forall|j: int| 0 <= j < i ==> registered.deep_view()[j] != id@,
        decreases registered.len() - i,
    {
        if registered[i].eq(id) {
            assert(registered.deep_view()[i as int] == id@);
            return true;
        }
        i += 1;
    }
    false
}

/// Looks up the first known device of the given integration with the given
/// name and returns its key, resolving a name link.
fn find_known_by_name(known: &Vec<Device>, integration_id: &IntegrationId, name: &String) -> (r:
    Option<DeviceKey>)
    ensures
        ({
            let i = find_device_by_name(known.deep_view(), integration_id@, name@);
            r.deep_view() == if i < 0 {
                None::<DeviceKeyView>
            } else {
                Some(known.deep_view()[i].key())
            }
        }),
{
    let ghost kn = known.deep_view();
    proof {
        lemma_find_device_by_name_props(kn, integration_id@, name@);
    }
    let mut i: usize = 0;
    while i < known.len()
        invariant
            i <= known.len(),
            kn == known.deep_view(),
            forall|j: int|
                0 <= j < i ==> !(kn[j].integration_id == integration_id@ && kn[j].name
                    == name@),
        decreases known.len() - i,
    {
        let d = &known[i];
        if d.integration_id.eq(integration_id) && d.name.eq(name) {
            proof {
                lemma_find_device_by_name_props(kn, integration_id@, name@);
                assert(kn[i as int] == d@);
                let f = find_device_by_name(kn, integration_id@, name@);
                if f < 0 {
                    assert(!(kn[i as int].integration_id == integration_id@ && kn[i as int].name
                        == name@));
                }
                assert(f == i as int);
            }
            return Some(d.key());
        }
        i += 1;
    }
    proof {
        let f = find_device_by_name(kn, integration_id@, name@);
        if f >= 0 {
            assert(kn[f].integration_id == integration_id@ && kn[f].name == name@);
        }
    }
    None
}

/// Resolves one direct device link against the registered integrations and
/// the known devices.
fn resolve_link_exec(
    link: &GroupDeviceLink,
    registered: &Vec<IntegrationId>,
    known: &Vec<Device>,
) -> (r: Option<DeviceKey>)
    ensures
        r.deep_view() == resolve_link(link@, registered.deep_view(), known.deep_view()),
{
    if !registered_contains(registered, &link.integration_id) {
        return None;
    }
    match &link.device_id {
        Some(d) => Some(
            DeviceKey { integration_id: link.integration_id.clone(), device_id: d.clone() },
        ),
        None => match &link.name {
            Some(n) => find_known_by_name(known, &link.integration_id, n),
            None => None,
        },
    }
}

/// Decides membership of a key in an ordered key set.
pub fn keys_contain(keys: &Vec<DeviceKey>, k: &DeviceKey) -> (r: bool)
    ensures
        r == keys.deep_view().contains(k@),
{
    let mut i: usize = 0;
    while i < keys.len()
        invariant
            i <= keys.len(),
            forall|j: int| 0 <= j < i ==> keys.deep_view()[j] != k@,
        decreases keys.len() - i,
    {
        if keys[i].key_eq(k) {
            assert(keys.deep_view()[i as int] == k@);
            return true;
        }
        i += 1;
    }
    false
}

/// Appends a key unless it is already present.
fn push_key_unique(keys: &mut Vec<DeviceKey>, k: DeviceKey)
    ensures
        final(keys).deep_view() == add_key(old(keys).deep_view(), k@),
{
    if !keys_contain(keys, &k) {
        let ghost pre = keys.deep_view();
        keys.push(k);
        proof {
            assert(keys.deep_view() =~= pre.push(k@));
        }
    }
}

/// Merges an ordered key set into `acc`, keeping order of first occurrence.
fn merge_keys_exec(acc: &mut Vec<DeviceKey>, more: &Vec<DeviceKey>)
    ensures
        final(acc).deep_view() == merge_keys(old(acc).deep_view(), more.deep_view()),
{
    let ghost m = more.deep_view();
    let ghost orig = old(acc).deep_view();
    proof {
        assert(m.skip(0) =~= m);
    }
    let mut i: usize = 0;
    while i < more.len()
        invariant
            i <= more.len(),
            m == more.deep_view(),
            merge_keys(acc.deep_view(), m.skip(i as int)) == merge_keys(orig, m),
        decreases more.len() - i,
    {
        proof {
            assert(m.skip(i as int).len() > 0);
            assert(m.skip(i as int)[0] == m[i as int]);
            assert(m.skip(i as int).drop_first() =~= m.skip(i as int + 1));
        }
        push_key_unique(acc, more[i].clone());
        i += 1;
    }
    proof {
        assert(m.skip(more.len() as int).len() == 0);
    }
}

/// Finds the index of a group definition by id.
fn find_group_index(configs: &GroupsConfig, id: &GroupId) -> (r: Option<usize>)
    ensures
        match r {
            Some(i) => find_group(configs@, id@) == i as int,
            None => find_group(configs@, id@) < 0,
        },
{
    proof {
        lemma_find_group_props(configs@, id@);
    }
    let mut i: usize = 0;
    while i < configs.len()
        invariant
            i <= configs.len(),
            forall|j: int| 0 <= j < i ==> configs@[j].0@ != id@,
        decreases configs.len() - i,
    {
        if configs[i].0.group_eq(id) {
            proof {
                lemma_find_group_props(configs@, id@);
                let f = find_group(configs@, id@);
                if f < 0 {
                    assert(configs@[i as int].0@ != id@);
                }
                assert(f == i as int);
            }
            return Some(i);
        }
        i += 1;
    }
    None
}

/// Flattens one group by depth-first expansion. `path` holds the group ids
/// already on the current traversal path; a reference back into it is a
/// cycle and fails this group's flattening with `None`.
#[verifier::loop_isolation(false)]
pub fn flatten_group_rec(
    configs: &GroupsConfig,
    registered: &Vec<IntegrationId>,
    known: &Vec<Device>,
    id: &GroupId,
    path: &mut Vec<GroupId>,
) -> (r: Option<Vec<DeviceKey>>)
    requires
        old(path).deep_view().to_set().subset_of(group_ids_of(configs@)),
    ensures
        final(path)@ == old(path)@,
        r.deep_view() == flatten_group_spec(
            configs@,
            registered.deep_view(),
            known.deep_view(),
            id@,
            old(path).deep_view().to_set(),
        ),
    decreases group_ids_of(configs@).difference(old(path).deep_view().to_set()).len(),
{
    broadcast use vstd::seq_lib::seq_to_set_is_finite;

    let ghost pset = old(path).deep_view().to_set();
    // Cycle check: is this id already on the path?
    let mut i: usize = 0;
    while i < path.len()
        invariant
            i <= path.len(),
            path@ == old(path)@,
            forall|j: int| 0 <= j < i ==> path.deep_view()[j] != id@,
        decreases path.len() - i,
    {
        if path[i].group_eq(id) {
            assert(path.deep_view()[i as int] == id@);
            return None;
        }
        i += 1;
    }
    assert(!pset.contains(id@));
    let gi = match find_group_index(configs, id) {
        Some(gi) => gi,
        None => {
            proof {
                lemma_find_group_props(configs@, id@);
            }
            return None;
        },
    };
    proof {
        lemma_find_group_props(configs@, id@);
        lemma_path_insert_shrinks(configs@, id@, pset);
    }
    let cfg = &configs[gi].1;
    let ghost cfgv = cfg@;

    // Direct device links, in order, deduplicated.
    let mut acc: Vec<DeviceKey> = Vec::new();
    proof {
        assert(acc.deep_view() =~= Seq::<DeviceKeyView>::empty());
    }
    match &cfg.devices {
        Some(links) => {
            let ghost lv = links.deep_view();
            assert(cfgv.devices == lv);
            proof {
                assert(lv.skip(0) =~= lv);
            }
            let mut j: usize = 0;
            while j < links.len()
                invariant
                    j <= links.len(),
                    lv == links.deep_view(),
                    direct_keys(
                        lv.skip(j as int),
                        registered.deep_view(),
                        known.deep_view(),
                        acc.deep_view(),
                    ) == direct_keys(
                        lv,
                        registered.deep_view(),
                        known.deep_view(),
                        Seq::empty(),
                    ),
                decreases links.len() - j,
            {
                proof {
                    assert(lv.skip(j as int).len() > 0);
                    assert(lv.skip(j as int)[0] == lv[j as int]);
                    assert(lv.skip(j as int).drop_first() =~= lv.skip(j as int + 1));
                }
                match resolve_link_exec(&links[j], registered, known) {
                    Some(k) => push_key_unique(&mut acc, k),
                    None => (),
                }
                j += 1;
            }
            proof {
                assert(lv.skip(links.len() as int).len() == 0);
            }
        },
        None => {
            assert(cfgv.devices =~= Seq::<GroupDeviceLinkView>::empty());
        },
    }
    let ghost direct = direct_keys(
        cfgv.devices,
        registered.deep_view(),
        known.deep_view(),
        Seq::empty(),
    );
    assert(acc.deep_view() == direct);

    // Nested group references.
    path.push(id.clone());
    let ghost pset2 = pset.insert(id@);
    proof {
        assert(path.deep_view() =~= old(path).deep_view().push(id@));
        lemma_push_to_set(old(path).deep_view(), id@);
        assert(path.deep_view().to_set() =~= pset2);
    }
    match &cfg.groups {
        Some(glinks) => {
            let ghost gv = glinks.deep_view();
            assert(cfgv.groups == gv);
            proof {
                assert(gv.skip(0) =~= gv);
            }
            let mut j: usize = 0;
            while j < glinks.len()
                invariant
                    j <= glinks.len(),
                    gv == glinks.deep_view(),
                    path@ == old(path)@.push(*id),
                    path.deep_view().to_set() == pset2,
                    path.deep_view().to_set().subset_of(group_ids_of(configs@)),
                    path.len() >= 1,
                    flatten_links_spec(
                        configs@,
                        registered.deep_view(),
                        known.deep_view(),
                        gv.skip(j as int),
                        pset2,
                        acc.deep_view(),
                    ) == flatten_links_spec(
                        configs@,
                        registered.deep_view(),
                        known.deep_view(),
                        gv,
                        pset2,
                        direct,
                    ),
                decreases glinks.len() - j,
            {
                proof {
                    assert(gv.skip(j as int).len() > 0);
                    assert(gv.skip(j as int)[0] == gv[j as int]);
                    assert(gv.skip(j as int).drop_first() =~= gv.skip(j as int + 1));
                }
                let child = &glinks[j].group_id;
                assert(gv[j as int] == child@);
                match find_group_index(configs, child) {
                    None => (),
                    Some(_) => {
                        let sub = flatten_group_rec(configs, registered, known, child, path);
                        match sub {
                            None => {
                                let _popped = path.pop();
                                proof {
                                    assert(path@ =~= old(path)@);
                                }
                                return None;
                            },
                            Some(keys) => {
                                merge_keys_exec(&mut acc, &keys);
                            },
                        }
                    },
                }
                j += 1;
            }
            proof {
                assert(gv.skip(glinks.len() as int).len() == 0);
            }
        },
        None => {
            assert(cfgv.groups =~= Seq::<Seq<char>>::empty());
        },
    }
    let _popped = path.pop();
    proof {
        assert(path@ =~= old(path)@);
    }
    Some(acc)
}

/// The group subsystem: the group configuration, loaded once at startup and
/// immutable for the process lifetime.
pub struct Groups {
    pub config: GroupsConfig,
}

impl Groups {
    pub fn new(config: GroupsConfig) -> (r: Groups)
        ensures
            r.config == config,
    {
        Groups { config }
    }

    /// Flattens the named group: `None` if the group is undefined or its
    /// reference graph has a cycle reachable from it.
    pub fn flatten_group(
        &self,
        registered: &Vec<IntegrationId>,
        known: &Vec<Device>,
        id: &GroupId,
    ) -> (r: Option<Vec<DeviceKey>>)
        ensures
            r.deep_view() == flatten_group_spec(
                self.config@,
                registered.deep_view(),
                known.deep_view(),
                id@,
                Set::empty(),
            ),
    {
        let mut path: Vec<GroupId> = Vec::new();
        proof {
            assert(path.deep_view().to_set() =~= Set::<Seq<char>>::empty());
        }
        flatten_group_rec(&self.config, registered, known, id, &mut path)
    }

    /// Flattens every defined group. A group whose flattening fails (a
    /// cycle) yields `None` in its slot and does not affect the others.
    #[verifier::loop_isolation(false)]
    pub fn flatten_groups(&self, registered: &Vec<IntegrationId>, known: &Vec<Device>) -> (r:
        Vec<(GroupId, Option<FlattenedGroupConfig>)>)
        ensures
            r@.len() == self.config@.len(),
            forall|i: int|
                0 <= i < r@.len() ==> {
                    &&& (#[trigger] r@[i]).0@ == self.config@[i].0@
                    &&& match r@[i].1 {
                        Some(f) => {
                            &&& f@.name == self.config@[i].1@.name
                            &&& Some(f@.device_ids) == flatten_group_spec(
                                self.config@,
                                registered.deep_view(),
                                known.deep_view(),
                                self.config@[i].0@,
                                Set::empty(),
                            )
                        },
                        None => flatten_group_spec(
                            self.config@,
                            registered.deep_view(),
                            known.deep_view(),
                            self.config@[i].0@,
                            Set::empty(),
                        ) is None,
                    }
                },
    {
        let mut r: Vec<(GroupId, Option<FlattenedGroupConfig>)> = Vec::new();
        let mut i: usize = 0;
        while i < self.config.len()
            invariant
                i <= self.config.len(),
                r@.len() == i,
                forall|k: int|
                    0 <= k < i as int ==> {
                        &&& (#[trigger] r@[k]).0@ == self.config@[k].0@
                        &&& match r@[k].1 {
                            Some(f) => {
                                &&& f@.name == self.config@[k].1@.name
                                &&& Some(f@.device_ids) == flatten_group_spec(
                                    self.config@,
                                    registered.deep_view(),
                                    known.deep_view(),
                                    self.config@[k].0@,
                                    Set::empty(),
                                )
                            },
                            None => flatten_group_spec(
                                self.config@,
                                registered.deep_view(),
                                known.deep_view(),
                                self.config@[k].0@,
                                Set::empty(),
                            ) is None,
                        }
                    },
            decreases self.config.len() - i,
        {
            let entry = &self.config[i];
            let id = entry.0.clone();
            let name = entry.1.name.clone();
            let flat = match self.flatten_group(registered, known, &id) {
                Some(device_ids) => Some(FlattenedGroupConfig { name, device_ids }),
                None => None,
            };
            r.push((id, flat));
            i += 1;
        }
        r
    }
}

/// A list of nested group references fails to flatten as soon as one of its
/// defined referents fails.
proof fn lemma_links_with_failure_fail(
    configs: Seq<(GroupId, GroupConfig)>,
    registered: Seq<Seq<char>>,
    kn: Seq<DeviceView>,
    links: Seq<Seq<char>>,
    path: Set<Seq<char>>,
    acc: Seq<DeviceKeyView>,
)
    requires
        path.finite(),
        path.subset_of(group_ids_of(configs)),
        exists|j: int|
            0 <= j < links.len() && find_group(configs, links[j]) >= 0 && flatten_group_spec(
                configs,
                registered,
                kn,
                links[j],
                path,
            ) is None,
    ensures
        flatten_links_spec(configs, registered, kn, links, path, acc) is None,
    decreases links.len(),
{
    let j = choose|j: int|
        0 <= j < links.len() && find_group(configs, links[j]) >= 0 && flatten_group_spec(
            configs,
            registered,
            kn,
            links[j],
            path,
        ) is None;
    let child = links[0];
    if find_group(configs, child) < 0 {
        assert(j != 0);
        assert(links.drop_first()[j - 1] == links[j]);
        lemma_links_with_failure_fail(
            configs,
            registered,
            kn,
            links.drop_first(),
            path,
            acc,
        );
    } else {
        match flatten_group_spec(configs, registered, kn, child, path) {
            None => {},
            Some(keys) => {
                assert(j != 0);
                assert(links.drop_first()[j - 1] == links[j]);
                lemma_links_with_failure_fail(
                    configs,
                    registered,
                    kn,
                    links.drop_first(),
                    path,
                    merge_keys(acc, keys),
                );
            },
        }
    }
}

/// Cycle safety, direct form: a group that lists itself among its nested
/// group references fails its own flattening (and only its own: other
/// groups' results are separate values of `flatten_group_spec`).
pub proof fn lemma_flatten_self_reference(
    configs: Seq<(GroupId, GroupConfig)>,
    registered: Seq<Seq<char>>,
    kn: Seq<DeviceView>,
    id: Seq<char>,
)
    requires
        find_group(configs, id) >= 0,
        configs[find_group(configs, id)].1@.groups.contains(id),
    ensures
        flatten_group_spec(configs, registered, kn, id, Set::empty()) is None,
{
    broadcast use vstd::seq_lib::seq_to_set_is_finite;

    lemma_find_group_props(configs, id);
    let path0 = Set::<Seq<char>>::empty();
    let path1 = path0.insert(id);
    assert(path1.subset_of(group_ids_of(configs)));
    let links = configs[find_group(configs, id)].1@.groups;
    let j = choose|j: int| 0 <= j < links.len() && links[j] == id;
    assert(flatten_group_spec(configs, registered, kn, id, path1) is None);
    lemma_links_with_failure_fail(
        configs,
        registered,
        kn,
        links,
        path1,
        direct_keys(configs[find_group(configs, id)].1@.devices, registered, kn, Seq::empty()),
    );
}

/// Cycle safety, mutual form: two groups that reference each other both
/// fail their flattening, while any other group's result is untouched.
pub proof fn lemma_flatten_mutual_reference(
    configs: Seq<(GroupId, GroupConfig)>,
    registered: Seq<Seq<char>>,
    kn: Seq<DeviceView>,
    id1: Seq<char>,
    id2: Seq<char>,
)
    requires
        id1 != id2,
        find_group(configs, id1) >= 0,
        find_group(configs, id2) >= 0,
        configs[find_group(configs, id1)].1@.groups.contains(id2),
        configs[find_group(configs, id2)].1@.groups.contains(id1),
    ensures
        flatten_group_spec(configs, registered, kn, id1, Set::empty()) is None,
        flatten_group_spec(configs, registered, kn, id2, Set::empty()) is None,
{
    lemma_flatten_into_mutual(configs, registered, kn, id1, id2);
    lemma_flatten_into_mutual(configs, registered, kn, id2, id1);
}

/// Helper for the mutual case: flattening `ida` fails when `ida` references
/// `idb` and `idb` references `ida` back.
proof fn lemma_flatten_into_mutual(
    configs: Seq<(GroupId, GroupConfig)>,
    registered: Seq<Seq<char>>,
    kn: Seq<DeviceView>,
    ida: Seq<char>,
    idb: Seq<char>,
)
    requires
        ida != idb,
        find_group(configs, ida) >= 0,
        find_group(configs, idb) >= 0,
        configs[find_group(configs, ida)].1@.groups.contains(idb),
        configs[find_group(configs, idb)].1@.groups.contains(ida),
    ensures
        flatten_group_spec(configs, registered, kn, ida, Set::empty()) is None,
{
    broadcast use vstd::seq_lib::seq_to_set_is_finite;

    lemma_find_group_props(configs, ida);
    lemma_find_group_props(configs, idb);
    let patha = Set::<Seq<char>>::empty().insert(ida);
    assert(patha.subset_of(group_ids_of(configs)));
    // Flattening idb with ida on the path fails: idb's own links lead back
    // to ida, which is on the path.
    let pathab = patha.insert(idb);
    assert(pathab.subset_of(group_ids_of(configs)));
    let linksb = configs[find_group(configs, idb)].1@.groups;
    assert(flatten_group_spec(configs, registered, kn, ida, pathab) is None);
    lemma_links_with_failure_fail(
        configs,
        registered,
        kn,
        linksb,
        pathab,
        direct_keys(configs[find_group(configs, idb)].1@.devices, registered, kn, Seq::empty()),
    );
    assert(flatten_group_spec(configs, registered, kn, idb, patha) is None);
    // Hence ida's own links contain a defined group whose flattening fails.
    let linksa = configs[find_group(configs, ida)].1@.groups;
    lemma_links_with_failure_fail(
        configs,
        registered,
        kn,
        linksa,
        patha,
        direct_keys(configs[find_group(configs, ida)].1@.devices, registered, kn, Seq::empty()),
    );
}

} // verus!
