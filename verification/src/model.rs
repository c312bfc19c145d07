//! An abstract model of the kernel state a plan acts on, and the laws that
//! the power-on plan realizes every link, loopback and address correctly.
//!
//! The model tracks, per namespace and interface name, whether the interface
//! exists, whether it is administratively up, its master, and its addresses.
//! The host namespace is `None`; a router's namespace is named by the
//! router. Teardown actions concern the filesystem and leave this model
//! alone.

use vstd::prelude::*;

use crate::addr::IpCidr;
use crate::devices::node_interfaces;
use crate::devices::InterfaceV;
use crate::devices::LinkV;
use crate::devices::NodeV;
use crate::plan::find_node;
use crate::plan::iface_addr_actions;
use crate::plan::link_actions;
use crate::plan::plan_addrs_from;
use crate::plan::plan_links_from;
use crate::plan::plan_routers_from;
use crate::plan::plan_switches_from;
use crate::plan::router_addr_actions;
use crate::plan::side_actions;
use crate::plan::spec_power_on_plan;
use crate::plan::ActionV;
use crate::topology::has_node;
use crate::topology::nodes_unique;
use crate::topology::TopologyV;

verus! {

/// A namespace-and-interface-name key; `None` is the host namespace.
pub type IfaceKey = (Option<Seq<char>>, Seq<char>);

/// The modelled state of one interface.
pub struct IfaceModel {
    pub up: bool,
    pub master: Option<Seq<char>>,
    pub addrs: Seq<IpCidr>,
}

/// The modelled kernel state.
pub struct NetModel {
    pub namespaces: Set<Seq<char>>,
    pub ifaces: Map<IfaceKey, IfaceModel>,
    pub bridges: Set<Seq<char>>,
}

/// The state before power-on: no namespaces, no modelled interfaces, no
/// bridges.
pub open spec fn init_model() -> NetModel {
    NetModel { namespaces: Set::empty(), ifaces: Map::empty(), bridges: Set::empty() }
}

/// The model with one interface bound to `k`.
pub open spec fn iface_set(m: NetModel, k: IfaceKey, v: IfaceModel) -> NetModel {
    NetModel { namespaces: m.namespaces, ifaces: m.ifaces.insert(k, v), bridges: m.bridges }
}

/// The model with the interface at `k` gone.
pub open spec fn iface_del(m: NetModel, k: IfaceKey) -> NetModel {
    NetModel { namespaces: m.namespaces, ifaces: m.ifaces.remove(k), bridges: m.bridges }
}

/// The effect of one action on the modelled kernel state.
pub open spec fn apply_action(m: NetModel, a: ActionV) -> NetModel {
    match a {
        ActionV::CreateNamespace { router } => NetModel {
            namespaces: m.namespaces.insert(router),
            ifaces: m.ifaces.insert(
                (Some(router), "lo"@),
                IfaceModel { up: false, master: None, addrs: Seq::empty() },
            ),
            bridges: m.bridges,
        },
        ActionV::SetLoopbackUp { router } => {
            let k = (Some(router), "lo"@);
            if m.ifaces.contains_key(k) {
                iface_set(
                    m,
                    k,
                    IfaceModel {
                        up: true,
                        master: m.ifaces[k].master,
                        addrs: m.ifaces[k].addrs,
                    },
                )
            } else {
                m
            }
        },
        ActionV::CreateBridge { switch } => NetModel {
            namespaces: m.namespaces,
            ifaces: m.ifaces.insert(
                (None, switch),
                IfaceModel { up: true, master: None, addrs: Seq::empty() },
            ),
            bridges: m.bridges.insert(switch),
        },
        ActionV::CreateVeth { name_a, name_b } => iface_set(
            iface_set(m, (None, name_a), IfaceModel { up: false, master: None, addrs: Seq::empty() }),
            (None, name_b),
            IfaceModel { up: false, master: None, addrs: Seq::empty() },
        ),
        ActionV::MoveToNamespace { iface, router } => {
            let from = (None, iface);
            if m.ifaces.contains_key(from) {
                iface_set(iface_del(m, from), (Some(router), iface), m.ifaces[from])
            } else {
                m
            }
        },
        ActionV::RenameUp { namespace, from, to } => {
            let kf = (namespace, from);
            if m.ifaces.contains_key(kf) {
                let st = m.ifaces[kf];
                iface_set(
                    iface_del(m, kf),
                    (namespace, to),
                    IfaceModel { up: true, master: st.master, addrs: st.addrs },
                )
            } else {
                m
            }
        },
        ActionV::SetMaster { iface, bridge } => {
            let k = (None, iface);
            if m.ifaces.contains_key(k) {
                iface_set(
                    m,
                    k,
                    IfaceModel {
                        up: m.ifaces[k].up,
                        master: Some(bridge),
                        addrs: m.ifaces[k].addrs,
                    },
                )
            } else {
                m
            }
        },
        ActionV::AddAddress { router, iface, addr } => {
            let k = (Some(router), iface);
            if m.ifaces.contains_key(k) {
                iface_set(
                    m,
                    k,
                    IfaceModel {
                        up: m.ifaces[k].up,
                        master: m.ifaces[k].master,
                        addrs: m.ifaces[k].addrs.push(addr),
                    },
                )
            } else {
                m
            }
        },
        ActionV::KillHolder { .. } => m,
        ActionV::UnmountAnchor { .. } => m,
        ActionV::RemoveRouterDir { .. } => m,
        ActionV::UnmountMain => m,
        ActionV::RemoveMainDir => m,
    }
}

/// The effect of a whole plan, applied left to right.
pub open spec fn apply_actions(m: NetModel, s: Seq<ActionV>) -> NetModel
    decreases s.len(),
{
    if s.len() == 0 {
        m
    } else {
        apply_actions(apply_action(m, s[0]), s.drop_first())
    }
}

/// Applying a one-action plan.
pub proof fn lemma_apply_one(m: NetModel, a0: ActionV)
    ensures
        apply_actions(m, seq![a0]) == apply_action(m, a0),
{
    assert(seq![a0][0] == a0);
    assert(seq![a0].drop_first() =~= Seq::<ActionV>::empty());
    assert(apply_actions(apply_action(m, a0), seq![a0].drop_first()) == apply_action(m, a0));
}

/// Applying a two-action plan.
pub proof fn lemma_apply_two(m: NetModel, a0: ActionV, a1: ActionV)
    ensures
        apply_actions(m, seq![a0, a1]) == apply_action(apply_action(m, a0), a1),
{
    assert(seq![a0, a1][0] == a0);
    assert(seq![a0, a1].drop_first() =~= seq![a1]);
    lemma_apply_one(apply_action(m, a0), a1);
}

/// Applying a concatenation is applying the parts in order.
pub proof fn lemma_apply_append(m: NetModel, s1: Seq<ActionV>, s2: Seq<ActionV>)
    ensures
        apply_actions(m, s1 + s2) == apply_actions(apply_actions(m, s1), s2),
    decreases s1.len(),
{
    if s1.len() == 0 {
        assert(s1 + s2 =~= s2);
    } else {
        assert((s1 + s2)[0] == s1[0]);
        assert((s1 + s2).drop_first() =~= s1.drop_first() + s2);
        lemma_apply_append(apply_action(m, s1[0]), s1.drop_first(), s2);
    }
}

/// The interface keys one action may write.
pub open spec fn touches_key(a: ActionV, k: IfaceKey) -> bool {
    match a {
        ActionV::CreateNamespace { router } => k == (Some(router), "lo"@),
        ActionV::SetLoopbackUp { router } => k == (Some(router), "lo"@),
        ActionV::CreateBridge { switch } => k == (None::<Seq<char>>, switch),
        ActionV::CreateVeth { name_a, name_b } => k == (None::<Seq<char>>, name_a) || k == (None::<Seq<char>>, name_b),
        ActionV::MoveToNamespace { iface, router } => k == (None::<Seq<char>>, iface) || k == (
            Some(router),
            iface,
        ),
        ActionV::RenameUp { namespace, from, to } => k == (namespace, from) || k == (
            namespace,
            to,
        ),
        ActionV::SetMaster { iface, .. } => k == (None::<Seq<char>>, iface),
        ActionV::AddAddress { router, iface, .. } => k == (Some(router), iface),
        ActionV::KillHolder { .. } => false,
        ActionV::UnmountAnchor { .. } => false,
        ActionV::RemoveRouterDir { .. } => false,
        ActionV::UnmountMain => false,
        ActionV::RemoveMainDir => false,
    }
}

/// An action leaves alone every interface key it does not touch.
pub proof fn lemma_frame_action(m: NetModel, a: ActionV, k: IfaceKey)
    requires
        !touches_key(a, k),
    ensures
        apply_action(m, a).ifaces.contains_key(k) == m.ifaces.contains_key(k),
        m.ifaces.contains_key(k) ==> apply_action(m, a).ifaces[k] == m.ifaces[k],
{
}

/// A plan leaves alone every interface key none of its actions touches.
pub proof fn lemma_frame_actions(m: NetModel, s: Seq<ActionV>, k: IfaceKey)
    requires
        forall|i: int| 0 <= i < s.len() ==> !touches_key(#[trigger] s[i], k),
    ensures
        apply_actions(m, s).ifaces.contains_key(k) == m.ifaces.contains_key(k),
        m.ifaces.contains_key(k) ==> apply_actions(m, s).ifaces[k] == m.ifaces[k],
    decreases s.len(),
{
    if s.len() > 0 {
        lemma_frame_action(m, s[0], k);
        assert(forall|i: int|
            0 <= i < s.drop_first().len() ==> !touches_key(#[trigger] s.drop_first()[i], k));
        lemma_frame_actions(apply_action(m, s[0]), s.drop_first(), k);
    }
}

/// A freshly realized interface: administratively up, no master, no
/// addresses.
pub open spec fn fresh_up() -> IfaceModel {
    IfaceModel { up: true, master: None, addrs: Seq::empty() }
}

/// Whether `k` is the loopback key of some router among `nodes`.
pub open spec fn is_router_lo_key(nodes: Seq<NodeV>, k: IfaceKey) -> bool {
    exists|i: int|
        0 <= i < nodes.len() && #[trigger] nodes[i] is Router && k == (
            Some(nodes[i].name()),
            "lo"@,
        )
}

/// The router pass leaves every router's loopback present and up, with no
/// master and no addresses, and touches nothing else.
pub proof fn lemma_routers_pass(m: NetModel, nodes: Seq<NodeV>)
    ensures
        forall|i: int|
            0 <= i < nodes.len() && #[trigger] nodes[i] is Router ==> {
                let m2 = apply_actions(m, plan_routers_from(nodes, Seq::empty()));
                let k = (Some(nodes[i].name()), "lo"@);
                m2.ifaces.contains_key(k) && m2.ifaces[k] == fresh_up()
            },
        forall|k: IfaceKey|
            #![trigger m.ifaces.contains_key(k)]
            !is_router_lo_key(nodes, k) ==> {
                let m2 = apply_actions(m, plan_routers_from(nodes, Seq::empty()));
                &&& m2.ifaces.contains_key(k) == m.ifaces.contains_key(k)
                &&& m.ifaces.contains_key(k) ==> m2.ifaces[k] == m.ifaces[k]
            },
    decreases nodes.len(),
{
    if nodes.len() == 0 {
    } else {
        let rest = nodes.drop_first();
        match nodes[0] {
            NodeV::Router(r) => {
                let k0 = seq![
                    ActionV::CreateNamespace { router: r.name },
                    ActionV::SetLoopbackUp { router: r.name },
                ];
                crate::plan::lemma_plan_routers_acc(rest, k0);
                assert(plan_routers_from(nodes, Seq::empty()) == k0 + plan_routers_from(
                    rest,
                    Seq::empty(),
                ));
                lemma_apply_append(m, k0, plan_routers_from(rest, Seq::empty()));
                let m1 = apply_actions(m, k0);
                lemma_apply_two(
                    m,
                    ActionV::CreateNamespace { router: r.name },
                    ActionV::SetLoopbackUp { router: r.name },
                );
                assert(m1 == apply_action(
                    apply_action(m, ActionV::CreateNamespace { router: r.name }),
                    ActionV::SetLoopbackUp { router: r.name },
                ));
                let klo = (Some(r.name), "lo"@);
                assert(m1.ifaces.contains_key(klo) && m1.ifaces[klo] == fresh_up());
                lemma_routers_pass(m1, rest);
                let m2 = apply_actions(m1, plan_routers_from(rest, Seq::empty()));
                assert forall|i: int| 0 <= i < nodes.len() && #[trigger] nodes[i] is Router implies {
                    let kk = (Some(nodes[i].name()), "lo"@);
                    m2.ifaces.contains_key(kk) && m2.ifaces[kk] == fresh_up()
                } by {
                    if i == 0 {
                        if is_router_lo_key(rest, klo) {
                        } else {
                        }
                    } else {
                        assert(rest[i - 1] == nodes[i]);
                    }
                }
                assert forall|k: IfaceKey| !is_router_lo_key(nodes, k) implies {
                    &&& m2.ifaces.contains_key(k) == m.ifaces.contains_key(k)
                    &&& m.ifaces.contains_key(k) ==> m2.ifaces[k] == m.ifaces[k]
                } by {
                    assert(!(k == klo));
                    assert forall|j: int|
                        0 <= j < rest.len() && #[trigger] rest[j] is Router implies k != (
                        Some(rest[j].name()),
                        "lo"@,
                    ) by {
                        assert(rest[j] == nodes[j + 1]);
                    }
                    assert(!is_router_lo_key(rest, k));
                    assert(m1.ifaces.contains_key(k) == m.ifaces.contains_key(k));
                }
            },
            NodeV::Switch(_) => {
                lemma_routers_pass(m, rest);
                assert forall|i: int| 0 <= i < nodes.len() && #[trigger] nodes[i] is Router implies {
                    let m2 = apply_actions(m, plan_routers_from(nodes, Seq::empty()));
                    let kk = (Some(nodes[i].name()), "lo"@);
                    m2.ifaces.contains_key(kk) && m2.ifaces[kk] == fresh_up()
                } by {
                    assert(i > 0);
                    assert(rest[i - 1] == nodes[i]);
                }
                assert forall|k: IfaceKey| !is_router_lo_key(nodes, k) implies !is_router_lo_key(
                    rest,
                    k,
                ) by {
                    assert forall|j: int|
                        0 <= j < rest.len() && #[trigger] rest[j] is Router implies k != (
                        Some(rest[j].name()),
                        "lo"@,
                    ) by {
                        assert(rest[j] == nodes[j + 1]);
                    }
                }
            },
        }
    }
}

/// Whether `k` is the host key of some switch among `nodes`.
pub open spec fn is_switch_host_key(nodes: Seq<NodeV>, k: IfaceKey) -> bool {
    exists|i: int|
        0 <= i < nodes.len() && #[trigger] nodes[i] is Switch && k == (
            None::<Seq<char>>,
            nodes[i].name(),
        )
}

/// The switch pass leaves every switch's bridge interface present and up and
/// touches nothing else.
pub proof fn lemma_switches_pass(m: NetModel, nodes: Seq<NodeV>)
    ensures
        forall|i: int|
            0 <= i < nodes.len() && #[trigger] nodes[i] is Switch ==> {
                let m2 = apply_actions(m, plan_switches_from(nodes, Seq::empty()));
                let k = (None::<Seq<char>>, nodes[i].name());
                m2.ifaces.contains_key(k) && m2.ifaces[k] == fresh_up()
            },
        forall|k: IfaceKey|
            #![trigger m.ifaces.contains_key(k)]
            !is_switch_host_key(nodes, k) ==> {
                let m2 = apply_actions(m, plan_switches_from(nodes, Seq::empty()));
                &&& m2.ifaces.contains_key(k) == m.ifaces.contains_key(k)
                &&& m.ifaces.contains_key(k) ==> m2.ifaces[k] == m.ifaces[k]
            },
    decreases nodes.len(),
{
    if nodes.len() == 0 {
    } else {
        let rest = nodes.drop_first();
        match nodes[0] {
            NodeV::Switch(s) => {
                let k0 = seq![ActionV::CreateBridge { switch: s.name }];
                crate::plan::lemma_plan_switches_acc(rest, k0);
                assert(plan_switches_from(nodes, Seq::empty()) == k0 + plan_switches_from(
                    rest,
                    Seq::empty(),
                ));
                lemma_apply_append(m, k0, plan_switches_from(rest, Seq::empty()));
                let m1 = apply_actions(m, k0);
                lemma_apply_one(m, ActionV::CreateBridge { switch: s.name });
                assert(m1 == apply_action(m, ActionV::CreateBridge { switch: s.name }));
                let khost = (None::<Seq<char>>, s.name);
                assert(m1.ifaces.contains_key(khost) && m1.ifaces[khost] == fresh_up());
                lemma_switches_pass(m1, rest);
                let m2 = apply_actions(m1, plan_switches_from(rest, Seq::empty()));
                assert forall|i: int| 0 <= i < nodes.len() && #[trigger] nodes[i] is Switch implies {
                    let kk = (None::<Seq<char>>, nodes[i].name());
                    m2.ifaces.contains_key(kk) && m2.ifaces[kk] == fresh_up()
                } by {
                    if i > 0 {
                        assert(rest[i - 1] == nodes[i]);
                    }
                }
                assert forall|k: IfaceKey| !is_switch_host_key(nodes, k) implies {
                    &&& m2.ifaces.contains_key(k) == m.ifaces.contains_key(k)
                    &&& m.ifaces.contains_key(k) ==> m2.ifaces[k] == m.ifaces[k]
                } by {
                    assert(!(k == khost));
                    assert forall|j: int|
                        0 <= j < rest.len() && #[trigger] rest[j] is Switch implies k != (
                        None::<Seq<char>>,
                        rest[j].name(),
                    ) by {
                        assert(rest[j] == nodes[j + 1]);
                    }
                    assert(!is_switch_host_key(rest, k));
                    assert(m1.ifaces.contains_key(k) == m.ifaces.contains_key(k));
                }
            },
            NodeV::Router(_) => {
                lemma_switches_pass(m, rest);
                assert forall|i: int| 0 <= i < nodes.len() && #[trigger] nodes[i] is Switch implies {
                    let m2 = apply_actions(m, plan_switches_from(nodes, Seq::empty()));
                    let kk = (None::<Seq<char>>, nodes[i].name());
                    m2.ifaces.contains_key(kk) && m2.ifaces[kk] == fresh_up()
                } by {
                    assert(i > 0);
                    assert(rest[i - 1] == nodes[i]);
                }
                assert forall|k: IfaceKey| !is_switch_host_key(nodes, k) implies !is_switch_host_key(
                    rest,
                    k,
                ) by {
                    assert forall|j: int|
                        0 <= j < rest.len() && #[trigger] rest[j] is Switch implies k != (
                        None::<Seq<char>>,
                        rest[j].name(),
                    ) by {
                        assert(rest[j] == nodes[j + 1]);
                    }
                }
            },
        }
    }
}

/// Address actions change no interface's presence, state or master, only its
/// addresses.
pub proof fn lemma_addr_actions_keep_state(m: NetModel, s: Seq<ActionV>, k: IfaceKey)
    requires
        forall|i: int| 0 <= i < s.len() ==> #[trigger] s[i] is AddAddress,
    ensures
        apply_actions(m, s).ifaces.contains_key(k) == m.ifaces.contains_key(k),
        m.ifaces.contains_key(k) ==> apply_actions(m, s).ifaces[k].up == m.ifaces[k].up
            && apply_actions(m, s).ifaces[k].master == m.ifaces[k].master,
    decreases s.len(),
{
    if s.len() > 0 {
        assert(s[0] is AddAddress);
        assert(forall|i: int|
            0 <= i < s.drop_first().len() ==> #[trigger] s.drop_first()[i] is AddAddress);
        lemma_addr_actions_keep_state(apply_action(m, s[0]), s.drop_first(), k);
    }
}

/// Every action of one interface's address segment adds an address.
pub proof fn lemma_iface_addrs_all(router: Seq<char>, ifc: InterfaceV, acc: Seq<ActionV>)
    requires
        forall|i: int| 0 <= i < acc.len() ==> #[trigger] acc[i] is AddAddress,
    ensures
        forall|i: int|
            0 <= i < iface_addr_actions(router, ifc, acc).len() ==> #[trigger] iface_addr_actions(
                router,
                ifc,
                acc,
            )[i] is AddAddress,
    decreases ifc.addresses.len(),
{
    if ifc.addresses.len() > 0 {
        let k = seq![
            ActionV::AddAddress { router: router, iface: ifc.name, addr: ifc.addresses[0] },
        ];
        assert(forall|i: int| 0 <= i < (acc + k).len() ==> #[trigger] (acc + k)[i] is AddAddress);
        lemma_iface_addrs_all(
            router,
            InterfaceV { name: ifc.name, addresses: ifc.addresses.drop_first() },
            acc + k,
        );
    }
}

/// Every action of one router's address segment adds an address.
pub proof fn lemma_router_addrs_all(router: Seq<char>, ifs: Seq<InterfaceV>, acc: Seq<ActionV>)
    requires
        forall|i: int| 0 <= i < acc.len() ==> #[trigger] acc[i] is AddAddress,
    ensures
        forall|i: int|
            0 <= i < router_addr_actions(router, ifs, acc).len() ==> #[trigger] router_addr_actions(
                router,
                ifs,
                acc,
            )[i] is AddAddress,
    decreases ifs.len(),
{
    if ifs.len() > 0 {
        lemma_iface_addrs_all(router, ifs[0], acc);
        lemma_router_addrs_all(router, ifs.drop_first(), iface_addr_actions(router, ifs[0], acc));
    }
}

/// Every action of the address pass adds an address.
pub proof fn lemma_plan_addrs_all(nodes: Seq<NodeV>, acc: Seq<ActionV>)
    requires
        forall|i: int| 0 <= i < acc.len() ==> #[trigger] acc[i] is AddAddress,
    ensures
        forall|i: int|
            0 <= i < plan_addrs_from(nodes, acc).len() ==> #[trigger] plan_addrs_from(nodes, acc)[i]
                is AddAddress,
    decreases nodes.len(),
{
    if nodes.len() > 0 {
        match nodes[0] {
            NodeV::Router(r) => {
                lemma_router_addrs_all(r.name, r.interfaces, acc);
                lemma_plan_addrs_all(
                    nodes.drop_first(),
                    router_addr_actions(r.name, r.interfaces, acc),
                );
            },
            NodeV::Switch(_) => {
                lemma_plan_addrs_all(nodes.drop_first(), acc);
            },
        }
    }
}

/// One interface's address segment appends exactly the configured addresses
/// to that interface, in order, and changes nothing else; an interface the
/// model does not hold is left alone.
pub proof fn lemma_iface_addr_segment(m: NetModel, router: Seq<char>, ifc: InterfaceV)
    ensures
        ({
            let k = (Some(router), ifc.name);
            let m2 = apply_actions(m, iface_addr_actions(router, ifc, Seq::empty()));
            &&& !m.ifaces.contains_key(k) ==> m2 == m
            &&& m.ifaces.contains_key(k) ==> m2.ifaces.contains_key(k) && m2.ifaces[k].addrs
                == m.ifaces[k].addrs + ifc.addresses && m2.ifaces[k].up == m.ifaces[k].up
                && m2.ifaces[k].master == m.ifaces[k].master
            &&& forall|k2: IfaceKey|
                #![trigger m2.ifaces.contains_key(k2)]
                k2 != k ==> m2.ifaces.contains_key(k2) == m.ifaces.contains_key(k2) && (
                m.ifaces.contains_key(k2) ==> m2.ifaces[k2] == m.ifaces[k2])
        }),
    decreases ifc.addresses.len(),
{
    let k = (Some(router), ifc.name);
    if ifc.addresses.len() == 0 {
        if m.ifaces.contains_key(k) {
            assert(m.ifaces[k].addrs + ifc.addresses =~= m.ifaces[k].addrs);
        }
    } else {
        let a0 = ActionV::AddAddress { router: router, iface: ifc.name, addr: ifc.addresses[0] };
        let tail = InterfaceV { name: ifc.name, addresses: ifc.addresses.drop_first() };
        crate::plan::lemma_iface_addrs_acc(router, tail, Seq::empty() + seq![a0]);
        assert(iface_addr_actions(router, ifc, Seq::empty()) == (Seq::empty() + seq![a0])
            + iface_addr_actions(router, tail, Seq::empty()));
        assert(Seq::<ActionV>::empty() + seq![a0] =~= seq![a0]);
        lemma_apply_append(m, seq![a0], iface_addr_actions(router, tail, Seq::empty()));
        lemma_apply_one(m, a0);
        let m1 = apply_action(m, a0);
        lemma_iface_addr_segment(m1, router, tail);
        let m2 = apply_actions(m, iface_addr_actions(router, ifc, Seq::empty()));
        assert forall|k2: IfaceKey| k2 != k implies m2.ifaces.contains_key(k2)
            == m.ifaces.contains_key(k2) && (m.ifaces.contains_key(k2) ==> m2.ifaces[k2]
            == m.ifaces[k2]) by {
            assert(m1.ifaces.contains_key(k2) == m.ifaces.contains_key(k2));
            assert(apply_actions(
                m1,
                iface_addr_actions(router, tail, Seq::empty()),
            ).ifaces.contains_key(k2) == m1.ifaces.contains_key(k2));
        }
        if m.ifaces.contains_key(k) {
            assert(m1.ifaces[k].addrs == m.ifaces[k].addrs.push(ifc.addresses[0]));
            assert(m2.ifaces[k].addrs == m.ifaces[k].addrs.push(ifc.addresses[0])
                + tail.addresses);
            assert(ifc.addresses =~= seq![ifc.addresses[0]] + tail.addresses);
            assert(m.ifaces[k].addrs.push(ifc.addresses[0]) + tail.addresses =~= m.ifaces[k].addrs
                + ifc.addresses);
        }
    }
}

/// Whether `k` addresses one of the router's declared interfaces.
pub open spec fn is_router_iface_key(router: Seq<char>, ifs: Seq<InterfaceV>, k: IfaceKey) -> bool {
    exists|j: int| 0 <= j < ifs.len() && k == (Some(router), ifs[j].name)
}

/// One router's address segment gives each declared interface exactly its
/// configured addresses and changes nothing else.
pub proof fn lemma_router_addr_segment(m: NetModel, router: Seq<char>, ifs: Seq<InterfaceV>)
    requires
        forall|i: int, j: int| 0 <= i < j < ifs.len() ==> ifs[i].name != ifs[j].name,
    ensures
        ({
            let m2 = apply_actions(m, router_addr_actions(router, ifs, Seq::empty()));
            &&& forall|j: int|
                0 <= j < ifs.len() && m.ifaces.contains_key(
                    (Some(router), #[trigger] ifs[j].name),
                ) ==> {
                    let k = (Some(router), ifs[j].name);
                    &&& m2.ifaces.contains_key(k)
                    &&& m2.ifaces[k].addrs == m.ifaces[k].addrs + ifs[j].addresses
                    &&& m2.ifaces[k].up == m.ifaces[k].up
                    &&& m2.ifaces[k].master == m.ifaces[k].master
                }
            &&& forall|k2: IfaceKey|
                #![trigger m2.ifaces.contains_key(k2)]
                !is_router_iface_key(router, ifs, k2) ==> m2.ifaces.contains_key(k2)
                    == m.ifaces.contains_key(k2) && (m.ifaces.contains_key(k2)
                    ==> m2.ifaces[k2] == m.ifaces[k2])
        }),
    decreases ifs.len(),
{
    if ifs.len() == 0 {
    } else {
        let rest = ifs.drop_first();
        let seg = iface_addr_actions(router, ifs[0], Seq::empty());
        crate::plan::lemma_router_addrs_acc(router, rest, seg);
        crate::plan::lemma_iface_addrs_acc(router, ifs[0], Seq::empty());
        assert(router_addr_actions(router, ifs, Seq::empty()) == seg + router_addr_actions(
            router,
            rest,
            Seq::empty(),
        ));
        lemma_apply_append(m, seg, router_addr_actions(router, rest, Seq::empty()));
        lemma_iface_addr_segment(m, router, ifs[0]);
        let m1 = apply_actions(m, seg);
        lemma_router_addr_segment(m1, router, rest);
        let m2 = apply_actions(m1, router_addr_actions(router, rest, Seq::empty()));
        let k0 = (Some(router), ifs[0].name);
        assert forall|j: int|
            0 <= j < ifs.len() && m.ifaces.contains_key(
                (Some(router), #[trigger] ifs[j].name),
            ) implies {
            let k = (Some(router), ifs[j].name);
            &&& m2.ifaces.contains_key(k)
            &&& m2.ifaces[k].addrs == m.ifaces[k].addrs + ifs[j].addresses
            &&& m2.ifaces[k].up == m.ifaces[k].up
            &&& m2.ifaces[k].master == m.ifaces[k].master
        } by {
            let k = (Some(router), ifs[j].name);
            if j == 0 {
                assert(m1.ifaces.contains_key(k0));
                assert(m1.ifaces[k0].addrs == m.ifaces[k0].addrs + ifs[0].addresses);
                assert(!is_router_iface_key(router, rest, k0)) by {
                    assert forall|jj: int| 0 <= jj < rest.len() implies k0 != (
                        Some(router),
                        #[trigger] rest[jj].name,
                    ) by {
                        assert(rest[jj] == ifs[jj + 1]);
                    }
                }
                assert(m2.ifaces.contains_key(k0) == m1.ifaces.contains_key(k0));
                assert(m2.ifaces[k0] == m1.ifaces[k0]);
            } else {
                assert(rest[j - 1] == ifs[j]);
                assert(k != k0);
                assert(m1.ifaces.contains_key(k) == m.ifaces.contains_key(k));
                assert(m1.ifaces[k] == m.ifaces[k]);
                assert(m2.ifaces.contains_key(k));
                assert(m2.ifaces[k].addrs == m1.ifaces[k].addrs + rest[j - 1].addresses);
            }
        }
        assert forall|k2: IfaceKey| !is_router_iface_key(router, ifs, k2) implies
            m2.ifaces.contains_key(k2) == m.ifaces.contains_key(k2) && (m.ifaces.contains_key(k2)
            ==> m2.ifaces[k2] == m.ifaces[k2]) by {
            assert(k2 != k0);
            assert(!is_router_iface_key(router, rest, k2)) by {
                assert forall|jj: int| 0 <= jj < rest.len() implies k2 != (
                    Some(router),
                    #[trigger] rest[jj].name,
                ) by {
                    assert(rest[jj] == ifs[jj + 1]);
                }
            }
            assert(m1.ifaces.contains_key(k2) == m.ifaces.contains_key(k2));
            assert(m2.ifaces.contains_key(k2) == m1.ifaces.contains_key(k2));
        }
    }
}

/// After the address pass, every interface a router's namespace holds that
/// the topology declares reports exactly the configured addresses, appended
/// in declaration order; an empty list adds none, and no other interface is
/// changed.
pub proof fn lemma_address_pass(m: NetModel, nodes: Seq<NodeV>)
    requires
        nodes_unique(nodes),
        forall|i: int| 0 <= i < nodes.len() ==> crate::devices::node_wf(#[trigger] nodes[i]),
    ensures
        ({
            let m2 = apply_actions(m, plan_addrs_from(nodes, Seq::empty()));
            forall|i: int, j: int|
                0 <= i < nodes.len() && #[trigger] nodes[i] is Router && 0 <= j
                    < node_interfaces(nodes[i]).len() && m.ifaces.contains_key(
                    (Some(nodes[i].name()), #[trigger] node_interfaces(nodes[i])[j].name),
                ) ==> {
                    let k = (Some(nodes[i].name()), node_interfaces(nodes[i])[j].name);
                    &&& m2.ifaces.contains_key(k)
                    &&& m2.ifaces[k].addrs == m.ifaces[k].addrs + node_interfaces(
                        nodes[i],
                    )[j].addresses
                    &&& m2.ifaces[k].up == m.ifaces[k].up
                    &&& m2.ifaces[k].master == m.ifaces[k].master
                }
        }),
    decreases nodes.len(),
{
    if nodes.len() == 0 {
    } else {
        let rest = nodes.drop_first();
        assert(forall|i: int| 0 <= i < rest.len() ==> rest[i] == nodes[i + 1]);
        assert(nodes_unique(rest)) by {
            assert forall|i: int, j: int| 0 <= i < j < rest.len() implies rest[i].name()
                != rest[j].name() by {
                assert(rest[i] == nodes[i + 1] && rest[j] == nodes[j + 1]);
            }
        }
        match nodes[0] {
            NodeV::Router(r) => {
                let seg = router_addr_actions(r.name, r.interfaces, Seq::empty());
                crate::plan::lemma_plan_addrs_acc(rest, seg);
                crate::plan::lemma_router_addrs_acc(r.name, r.interfaces, Seq::empty());
                assert(plan_addrs_from(nodes, Seq::empty()) == seg + plan_addrs_from(
                    rest,
                    Seq::empty(),
                ));
                lemma_apply_append(m, seg, plan_addrs_from(rest, Seq::empty()));
                assert(crate::devices::node_wf(nodes[0]));
                assert(node_interfaces(nodes[0]) == r.interfaces);
                assert(forall|i: int, j: int|
                    0 <= i < j < r.interfaces.len() ==> r.interfaces[i].name
                        != r.interfaces[j].name);
                lemma_router_addr_segment(m, r.name, r.interfaces);
                let m1 = apply_actions(m, seg);
                lemma_address_pass(m1, rest);
                let m2 = apply_actions(m1, plan_addrs_from(rest, Seq::empty()));
                assert forall|i: int, j: int|
                    0 <= i < nodes.len() && #[trigger] nodes[i] is Router && 0 <= j
                        < node_interfaces(nodes[i]).len() && m.ifaces.contains_key(
                        (Some(nodes[i].name()), #[trigger] node_interfaces(nodes[i])[j].name),
                    ) implies {
                    let k = (Some(nodes[i].name()), node_interfaces(nodes[i])[j].name);
                    &&& m2.ifaces.contains_key(k)
                    &&& m2.ifaces[k].addrs == m.ifaces[k].addrs + node_interfaces(
                        nodes[i],
                    )[j].addresses
                    &&& m2.ifaces[k].up == m.ifaces[k].up
                    &&& m2.ifaces[k].master == m.ifaces[k].master
                } by {
                    let k = (Some(nodes[i].name()), node_interfaces(nodes[i])[j].name);
                    if i == 0 {
                        // Established by this router's segment; the remaining
                        // routers have other names, so their segments leave k
                        // alone.
                        assert(m1.ifaces.contains_key(k));
                        assert forall|i2: int, j2: int|
                            0 <= i2 < rest.len() && #[trigger] rest[i2] is Router && 0 <= j2
                                < node_interfaces(rest[i2]).len() implies k != (
                            Some(rest[i2].name()),
                            #[trigger] node_interfaces(rest[i2])[j2].name,
                        ) by {
                            assert(rest[i2] == nodes[i2 + 1]);
                            assert(nodes[i2 + 1].name() != nodes[0].name());
                        }
                        lemma_addr_pass_frame(m1, rest, k);
                    } else {
                        // Untouched by this router's segment, established by
                        // the remaining passes.
                        assert(rest[i - 1] == nodes[i]);
                        assert(k.0 == Some(nodes[i].name()) && nodes[i].name() != r.name);
                        assert(!is_router_iface_key(r.name, r.interfaces, k));
                        assert(m1.ifaces.contains_key(k) == m.ifaces.contains_key(k));
                    }
                }
            },
            NodeV::Switch(_) => {
                lemma_address_pass(m, rest);
                let m2 = apply_actions(m, plan_addrs_from(nodes, Seq::empty()));
                assert forall|i: int, j: int|
                    0 <= i < nodes.len() && #[trigger] nodes[i] is Router && 0 <= j
                        < node_interfaces(nodes[i]).len() && m.ifaces.contains_key(
                        (Some(nodes[i].name()), #[trigger] node_interfaces(nodes[i])[j].name),
                    ) implies {
                    let k = (Some(nodes[i].name()), node_interfaces(nodes[i])[j].name);
                    &&& m2.ifaces.contains_key(k)
                    &&& m2.ifaces[k].addrs == m.ifaces[k].addrs + node_interfaces(
                        nodes[i],
                    )[j].addresses
                    &&& m2.ifaces[k].up == m.ifaces[k].up
                    &&& m2.ifaces[k].master == m.ifaces[k].master
                } by {
                    assert(i > 0);
                    assert(rest[i - 1] == nodes[i]);
                }
            },
        }
    }
}

/// The address pass leaves alone every key that is no declared interface of
/// a router among `nodes`.
pub proof fn lemma_addr_pass_frame(m: NetModel, nodes: Seq<NodeV>, k: IfaceKey)
    requires
        forall|i: int| 0 <= i < nodes.len() ==> crate::devices::node_wf(#[trigger] nodes[i]),
        forall|i: int, j: int|
            0 <= i < nodes.len() && #[trigger] nodes[i] is Router && 0 <= j < node_interfaces(
                nodes[i],
            ).len() ==> k != (Some(nodes[i].name()), #[trigger] node_interfaces(nodes[i])[j].name),
    ensures
        apply_actions(m, plan_addrs_from(nodes, Seq::empty())).ifaces.contains_key(k)
            == m.ifaces.contains_key(k),
        m.ifaces.contains_key(k) ==> apply_actions(
            m,
            plan_addrs_from(nodes, Seq::empty()),
        ).ifaces[k] == m.ifaces[k],
    decreases nodes.len(),
{
    if nodes.len() > 0 {
        let rest = nodes.drop_first();
        assert(forall|i: int| 0 <= i < rest.len() ==> rest[i] == nodes[i + 1]);
        assert forall|i: int, j: int|
            0 <= i < rest.len() && #[trigger] rest[i] is Router && 0 <= j < node_interfaces(
                rest[i],
            ).len() implies k != (
            Some(rest[i].name()),
            #[trigger] node_interfaces(rest[i])[j].name,
        ) by {
            assert(rest[i] == nodes[i + 1]);
        }
        match nodes[0] {
            NodeV::Router(r) => {
                let seg = router_addr_actions(r.name, r.interfaces, Seq::empty());
                crate::plan::lemma_plan_addrs_acc(rest, seg);
                assert(plan_addrs_from(nodes, Seq::empty()) == seg + plan_addrs_from(
                    rest,
                    Seq::empty(),
                ));
                lemma_apply_append(m, seg, plan_addrs_from(rest, Seq::empty()));
                assert(crate::devices::node_wf(nodes[0]));
                assert(node_interfaces(nodes[0]) == r.interfaces);
                assert(forall|i: int, j: int|
                    0 <= i < j < r.interfaces.len() ==> r.interfaces[i].name
                        != r.interfaces[j].name);
                lemma_router_addr_segment(m, r.name, r.interfaces);
                assert(!is_router_iface_key(r.name, r.interfaces, k)) by {
                    assert forall|j: int| 0 <= j < r.interfaces.len() implies k != (
                        Some(r.name),
                        r.interfaces[j].name,
                    ) by {
                        assert(nodes[0] is Router);
                        assert(node_interfaces(nodes[0]) == r.interfaces);
                    }
                }
                let m1 = apply_actions(m, seg);
                lemma_addr_pass_frame(m1, rest, k);
            },
            NodeV::Switch(_) => {
                lemma_addr_pass_frame(m, rest, k);
            },
        }
    }
}

/// One side of a link is realized: a router end exists inside the router's
/// namespace under the user-chosen name and is up, and its interim host name
/// is gone; a switch end exists in the host namespace under the user-chosen
/// name, is up, and has the bridge as its master.
pub open spec fn side_realized(
    m: NetModel,
    nodes: Seq<NodeV>,
    device: Seq<char>,
    tmp: Seq<char>,
    iface: Seq<char>,
) -> bool {
    match find_node(nodes, device) {
        Some(NodeV::Router(_)) => {
            let k = (Some(device), iface);
            &&& m.ifaces.contains_key(k)
            &&& m.ifaces[k].up
            &&& !m.ifaces.contains_key((None::<Seq<char>>, tmp))
        },
        Some(NodeV::Switch(_)) => {
            let k = (None::<Seq<char>>, iface);
            &&& m.ifaces.contains_key(k)
            &&& m.ifaces[k].up
            &&& m.ifaces[k].master == Some(device)
        },
        None => true,
    }
}

/// One link's segment realizes both of its endpoints: after the veth
/// creation, moves, renames and set-master, each side carries the
/// user-specified name and is administratively up, with the switch side
/// attached to its bridge — provided the interim names are distinct from
/// each other and from the endpoint names, and the two endpoints do not
/// collide in one namespace.
pub proof fn lemma_link_segment_realizes(
    m: NetModel,
    nodes: Seq<NodeV>,
    l: LinkV,
    ta: Seq<char>,
    tb: Seq<char>,
)
    requires
        find_node(nodes, l.src_device) is Some,
        find_node(nodes, l.dst_device) is Some,
        ta != tb,
        l.src_iface != ta && l.src_iface != tb,
        l.dst_iface != ta && l.dst_iface != tb,
        l.src_device == l.dst_device ==> l.src_iface != l.dst_iface,
        (find_node(nodes, l.src_device) matches Some(NodeV::Switch(_)) && find_node(
            nodes,
            l.dst_device,
        ) matches Some(NodeV::Switch(_))) ==> l.src_iface != l.dst_iface,
    ensures
        side_realized(
            apply_actions(m, link_actions(nodes, l, ta, tb)),
            nodes,
            l.src_device,
            ta,
            l.src_iface,
        ),
        side_realized(
            apply_actions(m, link_actions(nodes, l, ta, tb)),
            nodes,
            l.dst_device,
            tb,
            l.dst_iface,
        ),
{
    let veth = seq![ActionV::CreateVeth { name_a: ta, name_b: tb }];
    let src = side_actions(nodes, l.src_device, ta, l.src_iface);
    let dst = side_actions(nodes, l.dst_device, tb, l.dst_iface);
    assert(link_actions(nodes, l, ta, tb) == (veth + src) + dst);
    lemma_apply_append(m, veth + src, dst);
    lemma_apply_append(m, veth, src);
    lemma_apply_one(m, ActionV::CreateVeth { name_a: ta, name_b: tb });
    let ma = apply_action(m, ActionV::CreateVeth { name_a: ta, name_b: tb });
    match find_node(nodes, l.src_device) {
        Some(NodeV::Router(_)) => {
            lemma_apply_two(
                ma,
                ActionV::MoveToNamespace { iface: ta, router: l.src_device },
                ActionV::RenameUp { namespace: Some(l.src_device), from: ta, to: l.src_iface },
            );
        },
        Some(NodeV::Switch(_)) => {
            lemma_apply_two(
                ma,
                ActionV::RenameUp { namespace: None, from: ta, to: l.src_iface },
                ActionV::SetMaster { iface: l.src_iface, bridge: l.src_device },
            );
        },
        None => {},
    }
    let mb = apply_actions(ma, src);
    match find_node(nodes, l.dst_device) {
        Some(NodeV::Router(_)) => {
            lemma_apply_two(
                mb,
                ActionV::MoveToNamespace { iface: tb, router: l.dst_device },
                ActionV::RenameUp { namespace: Some(l.dst_device), from: tb, to: l.dst_iface },
            );
        },
        Some(NodeV::Switch(_)) => {
            lemma_apply_two(
                mb,
                ActionV::RenameUp { namespace: None, from: tb, to: l.dst_iface },
                ActionV::SetMaster { iface: l.dst_iface, bridge: l.dst_device },
            );
        },
        None => {},
    }
}

/// A name has a node if and only if a first node of that name is found.
pub proof fn lemma_has_node_find(nodes: Seq<NodeV>, name: Seq<char>)
    ensures
        has_node(nodes, name) <==> find_node(nodes, name) is Some,
        find_node(nodes, name) matches Some(n) ==> n.name() == name,
    decreases nodes.len(),
{
    if nodes.len() > 0 {
        lemma_has_node_find(nodes.drop_first(), name);
        if nodes[0].name() == name {
        } else {
            assert forall|i: int|
                0 <= i < nodes.len() && nodes[i].name() == name implies has_node(
                nodes.drop_first(),
                name,
            ) by {
                assert(i > 0);
                assert(nodes.drop_first()[i - 1] == nodes[i]);
            }
            if has_node(nodes.drop_first(), name) {
                let i = choose|i: int|
                    0 <= i < nodes.drop_first().len() && nodes.drop_first()[i].name() == name;
                assert(nodes[i + 1] == nodes.drop_first()[i]);
            }
        }
    }
}

/// None of a link segment's actions touches `k`, given that `k` differs
/// from each key the segment writes.
pub proof fn lemma_link_actions_avoid_exact(
    nodes: Seq<NodeV>,
    l: LinkV,
    ta: Seq<char>,
    tb: Seq<char>,
    k: IfaceKey,
)
    requires
        k != (None::<Seq<char>>, ta),
        k != (None::<Seq<char>>, tb),
        match find_node(nodes, l.src_device) {
            Some(NodeV::Router(_)) => k != (Some(l.src_device), ta) && k != (
                Some(l.src_device),
                l.src_iface,
            ),
            Some(NodeV::Switch(_)) => k != (None::<Seq<char>>, l.src_iface),
            None => true,
        },
        match find_node(nodes, l.dst_device) {
            Some(NodeV::Router(_)) => k != (Some(l.dst_device), tb) && k != (
                Some(l.dst_device),
                l.dst_iface,
            ),
            Some(NodeV::Switch(_)) => k != (None::<Seq<char>>, l.dst_iface),
            None => true,
        },
    ensures
        forall|i: int|
            0 <= i < link_actions(nodes, l, ta, tb).len() ==> !touches_key(
                #[trigger] link_actions(nodes, l, ta, tb)[i],
                k,
            ),
{
    let seg = link_actions(nodes, l, ta, tb);
    assert forall|i: int| 0 <= i < seg.len() implies !touches_key(seg[i], k) by {
        let src = side_actions(nodes, l.src_device, ta, l.src_iface);
        let dst = side_actions(nodes, l.dst_device, tb, l.dst_iface);
        assert(seg == seq![ActionV::CreateVeth { name_a: ta, name_b: tb }] + src + dst);
        if i == 0 {
        } else if i < 1 + src.len() {
            assert(seg[i] == src[i - 1]);
        } else {
            assert(seg[i] == dst[i - 1 - src.len()]);
        }
    }
}

/// The inputs under which the power-on plan realizes every link: a
/// well-formed topology; one interim pair per link, the interim names
/// pairwise distinct and never equal to an endpoint name; each endpoint pair
/// occurring once; and any two endpoints that share one namespace (two on
/// one router, or two on switches, which all live in the host namespace)
/// carrying different interface names.
pub open spec fn power_on_inputs_ok(t: TopologyV, ta: Seq<Seq<char>>, tb: Seq<Seq<char>>) -> bool {
    let ls = t.links;
    &&& crate::topology::topology_wf(t)
    &&& ta.len() == ls.len()
    &&& tb.len() == ls.len()
    &&& forall|i: int, j: int| 0 <= i < j < ta.len() ==> ta[i] != ta[j]
    &&& forall|i: int, j: int| 0 <= i < j < tb.len() ==> tb[i] != tb[j]
    &&& forall|i: int, j: int| 0 <= i < ta.len() && 0 <= j < tb.len() ==> ta[i] != tb[j]
    &&& forall|i: int, j: int|
        0 <= i < ta.len() && 0 <= j < ls.len() ==> #[trigger] ta[i] != (#[trigger] ls[j].src_iface)
            && ta[i] != ls[j].dst_iface && tb[i] != ls[j].src_iface && tb[i] != ls[j].dst_iface
    &&& forall|i: int|
        0 <= i < ls.len() ==> (#[trigger] ls[i].src_endpoint()) != ls[i].dst_endpoint()
    &&& forall|i: int, j: int|
        0 <= i < j < ls.len() ==> (#[trigger] ls[i].src_endpoint()) != (
        #[trigger] ls[j].src_endpoint()) && (ls[i].src_endpoint()) != ls[j].dst_endpoint() && (
        ls[i].dst_endpoint()) != ls[j].src_endpoint() && (ls[i].dst_endpoint())
            != ls[j].dst_endpoint()
    &&& forall|i: int, j: int|
        0 <= i < ls.len() && 0 <= j < ls.len() ==> host_names_distinct(t.nodes, ls[i], ls[j])
}

/// Two links' switch-side endpoint names never collide in the host
/// namespace (their own two sides included, when both are switch sides).
pub open spec fn on_switch(nodes: Seq<NodeV>, device: Seq<char>) -> bool {
    find_node(nodes, device) matches Some(NodeV::Switch(_))
}

/// Two links' switch-side endpoint names never collide in the host
/// namespace (their own two sides included, when both are switch sides).
pub open spec fn host_names_distinct(nodes: Seq<NodeV>, a: LinkV, b: LinkV) -> bool {
    &&& ((a.src_endpoint() != b.src_endpoint() && on_switch(nodes, a.src_device) && on_switch(
        nodes,
        b.src_device,
    )) ==> a.src_iface != b.src_iface)
    &&& ((a.src_endpoint() != b.dst_endpoint() && on_switch(nodes, a.src_device) && on_switch(
        nodes,
        b.dst_device,
    )) ==> a.src_iface != b.dst_iface)
    &&& ((a.dst_endpoint() != b.src_endpoint() && on_switch(nodes, a.dst_device) && on_switch(
        nodes,
        b.src_device,
    )) ==> a.dst_iface != b.src_iface)
    &&& ((a.dst_endpoint() != b.dst_endpoint() && on_switch(nodes, a.dst_device) && on_switch(
        nodes,
        b.dst_device,
    )) ==> a.dst_iface != b.dst_iface)
}

/// The key `k` differs from every key that one link's segment writes.
pub open spec fn link_key_clear(
    nodes: Seq<NodeV>,
    l: LinkV,
    ta: Seq<char>,
    tb: Seq<char>,
    k: IfaceKey,
) -> bool {
    &&& k != (None::<Seq<char>>, ta)
    &&& k != (None::<Seq<char>>, tb)
    &&& match find_node(nodes, l.src_device) {
        Some(NodeV::Router(_)) => k != (Some(l.src_device), ta) && k != (
            Some(l.src_device),
            l.src_iface,
        ),
        Some(NodeV::Switch(_)) => k != (None::<Seq<char>>, l.src_iface),
        None => true,
    }
    &&& match find_node(nodes, l.dst_device) {
        Some(NodeV::Router(_)) => k != (Some(l.dst_device), tb) && k != (
            Some(l.dst_device),
            l.dst_iface,
        ),
        Some(NodeV::Switch(_)) => k != (None::<Seq<char>>, l.dst_iface),
        None => true,
    }
}

/// The link pass leaves alone every key that no link's segment writes.
pub proof fn lemma_links_pass_frame(
    m: NetModel,
    nodes: Seq<NodeV>,
    links: Seq<LinkV>,
    ta: Seq<Seq<char>>,
    tb: Seq<Seq<char>>,
    k: IfaceKey,
)
    requires
        forall|j: int|
            0 <= j < links.len() && j < ta.len() && j < tb.len() ==> link_key_clear(
                nodes,
                #[trigger] links[j],
                ta[j],
                tb[j],
                k,
            ),
    ensures
        apply_actions(m, plan_links_from(nodes, links, ta, tb, Seq::empty())).ifaces.contains_key(
            k,
        ) == m.ifaces.contains_key(k),
        m.ifaces.contains_key(k) ==> apply_actions(
            m,
            plan_links_from(nodes, links, ta, tb, Seq::empty()),
        ).ifaces[k] == m.ifaces[k],
    decreases links.len(),
{
    if links.len() == 0 || ta.len() == 0 || tb.len() == 0 {
    } else {
        let seg = link_actions(nodes, links[0], ta[0], tb[0]);
        crate::plan::lemma_plan_links_acc(
            nodes,
            links.drop_first(),
            ta.drop_first(),
            tb.drop_first(),
            seg,
        );
        lemma_apply_append(
            m,
            seg,
            plan_links_from(
                nodes,
                links.drop_first(),
                ta.drop_first(),
                tb.drop_first(),
                Seq::empty(),
            ),
        );
        lemma_link_actions_avoid_exact(nodes, links[0], ta[0], tb[0], k);
        lemma_frame_actions(m, seg, k);
        let m1 = apply_actions(m, seg);
        assert forall|j: int|
            0 <= j < links.drop_first().len() && j < ta.drop_first().len() && j
                < tb.drop_first().len() implies link_key_clear(
            nodes,
            #[trigger] links.drop_first()[j],
            ta.drop_first()[j],
            tb.drop_first()[j],
            k,
        ) by {
            assert(links.drop_first()[j] == links[j + 1]);
            assert(ta.drop_first()[j] == ta[j + 1]);
            assert(tb.drop_first()[j] == tb[j + 1]);
        }
        lemma_links_pass_frame(m1, nodes, links.drop_first(), ta.drop_first(), tb.drop_first(), k);
    }
}

/// The link pass realizes every link: each endpoint ends under its
/// user-specified name, administratively up, a switch end attached to its
/// bridge, and each moved end's interim host name gone.
pub proof fn lemma_links_pass_realizes(
    m: NetModel,
    nodes: Seq<NodeV>,
    links: Seq<LinkV>,
    ta: Seq<Seq<char>>,
    tb: Seq<Seq<char>>,
)
    requires
        ta.len() == links.len(),
        tb.len() == links.len(),
        forall|i: int|
            0 <= i < links.len() ==> find_node(nodes, #[trigger] links[i].src_device) is Some
                && find_node(nodes, links[i].dst_device) is Some,
        forall|i: int, j: int| 0 <= i < j < ta.len() ==> ta[i] != ta[j],
        forall|i: int, j: int| 0 <= i < j < tb.len() ==> tb[i] != tb[j],
        forall|i: int, j: int| 0 <= i < ta.len() && 0 <= j < tb.len() ==> ta[i] != tb[j],
        forall|i: int, j: int|
            0 <= i < ta.len() && 0 <= j < links.len() ==> #[trigger] ta[i] != (
            #[trigger] links[j].src_iface) && ta[i] != links[j].dst_iface && tb[i]
                != links[j].src_iface && tb[i] != links[j].dst_iface,
        forall|i: int|
            0 <= i < links.len() ==> (#[trigger] links[i].src_endpoint())
                != links[i].dst_endpoint(),
        forall|i: int, j: int|
            0 <= i < j < links.len() ==> (#[trigger] links[i].src_endpoint()) != (
            #[trigger] links[j].src_endpoint()) && (links[i].src_endpoint())
                != links[j].dst_endpoint() && (links[i].dst_endpoint())
                != links[j].src_endpoint() && (links[i].dst_endpoint())
                != links[j].dst_endpoint(),
        forall|i: int, j: int|
            0 <= i < links.len() && 0 <= j < links.len() ==> host_names_distinct(
                nodes,
                #[trigger] links[i],
                #[trigger] links[j],
            ),
    ensures
        forall|i: int|
            0 <= i < links.len() ==> {
                let m2 = apply_actions(m, plan_links_from(nodes, links, ta, tb, Seq::empty()));
                side_realized(m2, nodes, #[trigger] links[i].src_device, ta[i], links[i].src_iface)
                    && side_realized(m2, nodes, links[i].dst_device, tb[i], links[i].dst_iface)
            },
    decreases links.len(),
{
    if links.len() == 0 {
    } else {
        let l0 = links[0];
        let seg = link_actions(nodes, l0, ta[0], tb[0]);
        crate::plan::lemma_plan_links_acc(
            nodes,
            links.drop_first(),
            ta.drop_first(),
            tb.drop_first(),
            seg,
        );
        lemma_apply_append(
            m,
            seg,
            plan_links_from(
                nodes,
                links.drop_first(),
                ta.drop_first(),
                tb.drop_first(),
                Seq::empty(),
            ),
        );
        assert(host_names_distinct(nodes, l0, l0));
        lemma_link_segment_realizes(m, nodes, l0, ta[0], tb[0]);
        let m1 = apply_actions(m, seg);
        assert(forall|j: int|
            0 <= j < links.drop_first().len() ==> links.drop_first()[j] == links[j + 1]
                && ta.drop_first()[j] == ta[j + 1] && tb.drop_first()[j] == tb[j + 1]);
        lemma_links_pass_realizes(
            m1,
            nodes,
            links.drop_first(),
            ta.drop_first(),
            tb.drop_first(),
        );
        let m2 = apply_actions(
            m1,
            plan_links_from(
                nodes,
                links.drop_first(),
                ta.drop_first(),
                tb.drop_first(),
                Seq::empty(),
            ),
        );
        // The remaining segments leave this link's result keys alone.
        assert forall|i: int| 0 <= i < links.len() implies side_realized(
            m2,
            nodes,
            #[trigger] links[i].src_device,
            ta[i],
            links[i].src_iface,
        ) && side_realized(m2, nodes, links[i].dst_device, tb[i], links[i].dst_iface) by {
            if i == 0 {
                let rest = links.drop_first();
                let tar = ta.drop_first();
                let tbr = tb.drop_first();
                assert forall|j: int, kk: IfaceKey|
                    #![trigger link_key_clear(nodes, rest[j], tar[j], tbr[j], kk)]
                    0 <= j < rest.len() && is_result_key(nodes, l0, ta[0], tb[0], kk) implies
                    link_key_clear(nodes, rest[j], tar[j], tbr[j], kk) by {
                    assert(rest[j] == links[j + 1]);
                    let lj = links[j + 1];
                    assert(host_names_distinct(nodes, l0, lj));
                    assert(host_names_distinct(nodes, lj, l0));
                    assert(ta[0] != ta[j + 1] && tb[0] != tb[j + 1] && ta[0] != tb[j + 1] && ta[j
                        + 1] != tb[0]);
                    assert(ta[j + 1] != l0.src_iface && ta[j + 1] != l0.dst_iface && tb[j + 1]
                        != l0.src_iface && tb[j + 1] != l0.dst_iface);
                    assert(ta[0] != lj.src_iface && ta[0] != lj.dst_iface && tb[0] != lj.src_iface
                        && tb[0] != lj.dst_iface);
                    assert(l0.src_endpoint() != lj.src_endpoint() && l0.src_endpoint()
                        != lj.dst_endpoint() && l0.dst_endpoint() != lj.src_endpoint()
                        && l0.dst_endpoint() != lj.dst_endpoint());
                }
                match find_node(nodes, l0.src_device) {
                    Some(NodeV::Router(_)) => {
                        lemma_links_pass_frame(
                            m1,
                            nodes,
                            rest,
                            tar,
                            tbr,
                            (Some(l0.src_device), l0.src_iface),
                        );
                        lemma_links_pass_frame(
                            m1,
                            nodes,
                            rest,
                            tar,
                            tbr,
                            (None::<Seq<char>>, ta[0]),
                        );
                    },
                    Some(NodeV::Switch(_)) => {
                        lemma_links_pass_frame(
                            m1,
                            nodes,
                            rest,
                            tar,
                            tbr,
                            (None::<Seq<char>>, l0.src_iface),
                        );
                    },
                    None => {},
                }
                match find_node(nodes, l0.dst_device) {
                    Some(NodeV::Router(_)) => {
                        lemma_links_pass_frame(
                            m1,
                            nodes,
                            rest,
                            tar,
                            tbr,
                            (Some(l0.dst_device), l0.dst_iface),
                        );
                        lemma_links_pass_frame(
                            m1,
                            nodes,
                            rest,
                            tar,
                            tbr,
                            (None::<Seq<char>>, tb[0]),
                        );
                    },
                    Some(NodeV::Switch(_)) => {
                        lemma_links_pass_frame(
                            m1,
                            nodes,
                            rest,
                            tar,
                            tbr,
                            (None::<Seq<char>>, l0.dst_iface),
                        );
                    },
                    None => {},
                }
            } else {
                assert(links.drop_first()[i - 1] == links[i]);
            }
        }
    }
}

/// Whether `k` is one of the keys that carry one link's realized state.
pub open spec fn is_result_key(
    nodes: Seq<NodeV>,
    l: LinkV,
    ta: Seq<char>,
    tb: Seq<char>,
    k: IfaceKey,
) -> bool {
    ||| (match find_node(nodes, l.src_device) {
        Some(NodeV::Router(_)) => k == (Some(l.src_device), l.src_iface) || k == (
            None::<Seq<char>>,
            ta,
        ),
        Some(NodeV::Switch(_)) => k == (None::<Seq<char>>, l.src_iface),
        None => false,
    })
    ||| (match find_node(nodes, l.dst_device) {
        Some(NodeV::Router(_)) => k == (Some(l.dst_device), l.dst_iface) || k == (
            None::<Seq<char>>,
            tb,
        ),
        Some(NodeV::Switch(_)) => k == (None::<Seq<char>>, l.dst_iface),
        None => false,
    })
}

/// After power-on, every link is realized: both endpoints carry the
/// user-specified names and are administratively up, switch endpoints have
/// their bridge as master, and every moved end's interim host name is gone.
pub proof fn lemma_power_on_realizes_links(t: TopologyV, ta: Seq<Seq<char>>, tb: Seq<Seq<char>>)
    requires
        power_on_inputs_ok(t, ta, tb),
    ensures
        forall|i: int|
            0 <= i < t.links.len() ==> {
                let m = apply_actions(init_model(), spec_power_on_plan(t, ta, tb));
                side_realized(
                    m,
                    t.nodes,
                    #[trigger] t.links[i].src_device,
                    ta[i],
                    t.links[i].src_iface,
                ) && side_realized(m, t.nodes, t.links[i].dst_device, tb[i], t.links[i].dst_iface)
            },
{
    let nodes = t.nodes;
    let rpass = plan_routers_from(nodes, Seq::empty());
    let spass = plan_switches_from(nodes, Seq::empty());
    let cpass = plan_links_from(nodes, t.links, ta, tb, Seq::empty());
    let dpass = plan_addrs_from(nodes, Seq::empty());
    crate::plan::lemma_plan_switches_acc(nodes, rpass);
    crate::plan::lemma_plan_links_acc(nodes, t.links, ta, tb, rpass + spass);
    crate::plan::lemma_plan_addrs_acc(nodes, (rpass + spass) + cpass);
    assert(spec_power_on_plan(t, ta, tb) == ((rpass + spass) + cpass) + dpass);
    lemma_apply_append(init_model(), (rpass + spass) + cpass, dpass);
    lemma_apply_append(init_model(), rpass + spass, cpass);
    lemma_apply_append(init_model(), rpass, spass);
    let m1 = apply_actions(init_model(), rpass);
    let m2 = apply_actions(m1, spass);
    let m3 = apply_actions(m2, cpass);
    let m4 = apply_actions(m3, dpass);
    assert forall|i: int|
        0 <= i < t.links.len() implies find_node(
        nodes,
        #[trigger] t.links[i].src_device,
    ) is Some && find_node(nodes, t.links[i].dst_device) is Some by {
        lemma_has_node_find(nodes, t.links[i].src_device);
        lemma_has_node_find(nodes, t.links[i].dst_device);
    }
    lemma_links_pass_realizes(m2, nodes, t.links, ta, tb);
    lemma_plan_addrs_all(nodes, Seq::empty());
    assert forall|i: int| 0 <= i < t.links.len() implies side_realized(
        m4,
        nodes,
        #[trigger] t.links[i].src_device,
        ta[i],
        t.links[i].src_iface,
    ) && side_realized(m4, nodes, t.links[i].dst_device, tb[i], t.links[i].dst_iface) by {
        let l = t.links[i];
        match find_node(nodes, l.src_device) {
            Some(NodeV::Router(_)) => {
                lemma_addr_actions_keep_state(m3, dpass, (Some(l.src_device), l.src_iface));
                lemma_addr_actions_keep_state(m3, dpass, (None::<Seq<char>>, ta[i]));
            },
            Some(NodeV::Switch(_)) => {
                lemma_addr_actions_keep_state(m3, dpass, (None::<Seq<char>>, l.src_iface));
            },
            None => {},
        }
        match find_node(nodes, l.dst_device) {
            Some(NodeV::Router(_)) => {
                lemma_addr_actions_keep_state(m3, dpass, (Some(l.dst_device), l.dst_iface));
                lemma_addr_actions_keep_state(m3, dpass, (None::<Seq<char>>, tb[i]));
            },
            Some(NodeV::Switch(_)) => {
                lemma_addr_actions_keep_state(m3, dpass, (None::<Seq<char>>, l.dst_iface));
            },
            None => {},
        }
    }
}

/// No two link endpoints coincide: not the two sides of one link, and not
/// any two sides of different links.
pub open spec fn endpoints_unique(ls: Seq<LinkV>) -> bool {
    &&& forall|i: int|
        0 <= i < ls.len() ==> (#[trigger] ls[i].src_endpoint()) != ls[i].dst_endpoint()
    &&& forall|i: int, j: int|
        0 <= i < j < ls.len() ==> (#[trigger] ls[i].src_endpoint()) != (
        #[trigger] ls[j].src_endpoint()) && (ls[i].src_endpoint()) != ls[j].dst_endpoint() && (
        ls[i].dst_endpoint()) != ls[j].src_endpoint() && (ls[i].dst_endpoint())
            != ls[j].dst_endpoint()
}

/// A well-formed topology with one generated interim pair per link meets the
/// realization theorem's premise, as long as the endpoints are unique and
/// switch-side names do not collide in the host namespace. The interim
/// conditions are exactly what `Topology::power_on_plan` guarantees of the
/// names it draws.
pub proof fn lemma_power_on_inputs(t: TopologyV, ta: Seq<Seq<char>>, tb: Seq<Seq<char>>)
    requires
        crate::topology::topology_wf(t),
        ta.len() == t.links.len(),
        tb.len() == t.links.len(),
        crate::names::interims_distinct(ta, tb),
        crate::plan::interims_avoid_topology(t, ta, tb),
        endpoints_unique(t.links),
        forall|i: int, j: int|
            0 <= i < t.links.len() && 0 <= j < t.links.len() ==> host_names_distinct(
                t.nodes,
                #[trigger] t.links[i],
                #[trigger] t.links[j],
            ),
    ensures
        power_on_inputs_ok(t, ta, tb),
{
}

/// One link-pass action leaves a router-namespace loopback present and up:
/// the only such key it can write is the target of a rename, which ends
/// present and up.
proof fn lemma_action_keeps_lo(m: NetModel, a: ActionV, k: IfaceKey)
    requires
        k.0 is Some,
        k.1 == "lo"@,
        match a {
            ActionV::CreateVeth { .. } => true,
            ActionV::SetMaster { .. } => true,
            ActionV::MoveToNamespace { iface, .. } => iface != "lo"@,
            ActionV::RenameUp { from, .. } => from != "lo"@,
            _ => false,
        },
        m.ifaces.contains_key(k),
        m.ifaces[k].up,
    ensures
        apply_action(m, a).ifaces.contains_key(k),
        apply_action(m, a).ifaces[k].up,
{
}

/// The link pass leaves every router-namespace loopback present and up, as
/// long as no interim name is itself the loopback's — which their fixed
/// prefix rules out. A user-chosen endpoint named like the loopback only
/// renames the moved end onto it, up.
proof fn lemma_links_pass_keeps_lo(
    m: NetModel,
    nodes: Seq<NodeV>,
    links: Seq<LinkV>,
    ta: Seq<Seq<char>>,
    tb: Seq<Seq<char>>,
    k: IfaceKey,
)
    requires
        k.0 is Some,
        k.1 == "lo"@,
        forall|i: int| 0 <= i < ta.len() ==> #[trigger] ta[i] != "lo"@,
        forall|i: int| 0 <= i < tb.len() ==> #[trigger] tb[i] != "lo"@,
        m.ifaces.contains_key(k),
        m.ifaces[k].up,
    ensures
        apply_actions(m, plan_links_from(nodes, links, ta, tb, Seq::empty())).ifaces.contains_key(
            k,
        ),
        apply_actions(m, plan_links_from(nodes, links, ta, tb, Seq::empty())).ifaces[k].up,
    decreases links.len(),
{
    if links.len() == 0 || ta.len() == 0 || tb.len() == 0 {
    } else {
        let l0 = links[0];
        let seg = link_actions(nodes, l0, ta[0], tb[0]);
        crate::plan::lemma_plan_links_acc(
            nodes,
            links.drop_first(),
            ta.drop_first(),
            tb.drop_first(),
            seg,
        );
        lemma_apply_append(
            m,
            seg,
            plan_links_from(
                nodes,
                links.drop_first(),
                ta.drop_first(),
                tb.drop_first(),
                Seq::empty(),
            ),
        );
        let veth = seq![ActionV::CreateVeth { name_a: ta[0], name_b: tb[0] }];
        let src = side_actions(nodes, l0.src_device, ta[0], l0.src_iface);
        let dst = side_actions(nodes, l0.dst_device, tb[0], l0.dst_iface);
        assert(seg == (veth + src) + dst);
        lemma_apply_append(m, veth + src, dst);
        lemma_apply_append(m, veth, src);
        lemma_apply_one(m, ActionV::CreateVeth { name_a: ta[0], name_b: tb[0] });
        let ma = apply_action(m, ActionV::CreateVeth { name_a: ta[0], name_b: tb[0] });
        lemma_action_keeps_lo(m, ActionV::CreateVeth { name_a: ta[0], name_b: tb[0] }, k);
        match find_node(nodes, l0.src_device) {
            Some(NodeV::Router(_)) => {
                let a0 = ActionV::MoveToNamespace { iface: ta[0], router: l0.src_device };
                let a1 = ActionV::RenameUp {
                    namespace: Some(l0.src_device),
                    from: ta[0],
                    to: l0.src_iface,
                };
                lemma_apply_two(ma, a0, a1);
                lemma_action_keeps_lo(ma, a0, k);
                lemma_action_keeps_lo(apply_action(ma, a0), a1, k);
            },
            Some(NodeV::Switch(_)) => {
                let a0 = ActionV::RenameUp { namespace: None, from: ta[0], to: l0.src_iface };
                let a1 = ActionV::SetMaster { iface: l0.src_iface, bridge: l0.src_device };
                lemma_apply_two(ma, a0, a1);
                lemma_action_keeps_lo(ma, a0, k);
                lemma_action_keeps_lo(apply_action(ma, a0), a1, k);
            },
            None => {},
        }
        let mb = apply_actions(ma, src);
        match find_node(nodes, l0.dst_device) {
            Some(NodeV::Router(_)) => {
                let a0 = ActionV::MoveToNamespace { iface: tb[0], router: l0.dst_device };
                let a1 = ActionV::RenameUp {
                    namespace: Some(l0.dst_device),
                    from: tb[0],
                    to: l0.dst_iface,
                };
                lemma_apply_two(mb, a0, a1);
                lemma_action_keeps_lo(mb, a0, k);
                lemma_action_keeps_lo(apply_action(mb, a0), a1, k);
            },
            Some(NodeV::Switch(_)) => {
                let a0 = ActionV::RenameUp { namespace: None, from: tb[0], to: l0.dst_iface };
                let a1 = ActionV::SetMaster { iface: l0.dst_iface, bridge: l0.dst_device };
                lemma_apply_two(mb, a0, a1);
                lemma_action_keeps_lo(mb, a0, k);
                lemma_action_keeps_lo(apply_action(mb, a0), a1, k);
            },
            None => {},
        }
        let m1 = apply_actions(m, seg);
        assert(m1.ifaces.contains_key(k) && m1.ifaces[k].up);
        assert(forall|i: int| 0 <= i < ta.drop_first().len() ==> #[trigger] ta.drop_first()[i] != "lo"@);
        assert(forall|i: int| 0 <= i < tb.drop_first().len() ==> #[trigger] tb.drop_first()[i] != "lo"@);
        lemma_links_pass_keeps_lo(
            m1,
            nodes,
            links.drop_first(),
            ta.drop_first(),
            tb.drop_first(),
            k,
        );
    }
}

/// After power-on, every router's namespace holds its loopback interface,
/// administratively up. The interim names never collide with the loopback's
/// name (their fixed prefix rules it out); an endpoint the user names like
/// the loopback merely renames its veth end onto it, still up.
pub proof fn lemma_power_on_loopbacks(t: TopologyV, ta: Seq<Seq<char>>, tb: Seq<Seq<char>>)
    requires
        forall|i: int| 0 <= i < ta.len() ==> #[trigger] ta[i] != "lo"@,
        forall|i: int| 0 <= i < tb.len() ==> #[trigger] tb[i] != "lo"@,
    ensures
        forall|i: int|
            0 <= i < t.nodes.len() && #[trigger] t.nodes[i] is Router ==> {
                let m = apply_actions(init_model(), spec_power_on_plan(t, ta, tb));
                let k = (Some(t.nodes[i].name()), "lo"@);
                m.ifaces.contains_key(k) && m.ifaces[k].up
            },
{
    let nodes = t.nodes;
    let rpass = plan_routers_from(nodes, Seq::empty());
    let spass = plan_switches_from(nodes, Seq::empty());
    let cpass = plan_links_from(nodes, t.links, ta, tb, Seq::empty());
    let dpass = plan_addrs_from(nodes, Seq::empty());
    crate::plan::lemma_plan_switches_acc(nodes, rpass);
    crate::plan::lemma_plan_links_acc(nodes, t.links, ta, tb, rpass + spass);
    crate::plan::lemma_plan_addrs_acc(nodes, (rpass + spass) + cpass);
    assert(spec_power_on_plan(t, ta, tb) == ((rpass + spass) + cpass) + dpass);
    lemma_apply_append(init_model(), (rpass + spass) + cpass, dpass);
    lemma_apply_append(init_model(), rpass + spass, cpass);
    lemma_apply_append(init_model(), rpass, spass);
    let m1 = apply_actions(init_model(), rpass);
    let m2 = apply_actions(m1, spass);
    let m3 = apply_actions(m2, cpass);
    let m4 = apply_actions(m3, dpass);
    lemma_routers_pass(init_model(), nodes);
    lemma_switches_pass(m1, nodes);
    lemma_plan_addrs_all(nodes, Seq::empty());
    assert forall|i: int| 0 <= i < nodes.len() && #[trigger] nodes[i] is Router implies {
        let k = (Some(nodes[i].name()), "lo"@);
        m4.ifaces.contains_key(k) && m4.ifaces[k].up
    } by {
        let k = (Some(nodes[i].name()), "lo"@);
        assert(m1.ifaces.contains_key(k) && m1.ifaces[k] == fresh_up());
        assert(!is_switch_host_key(nodes, k));
        assert(m2.ifaces.contains_key(k) && m2.ifaces[k] == fresh_up());
        lemma_links_pass_keeps_lo(m2, nodes, t.links, ta, tb, k);
        assert(m3.ifaces.contains_key(k) && m3.ifaces[k].up);
        lemma_addr_actions_keep_state(m3, dpass, k);
        assert(m4.ifaces.contains_key(k) && m4.ifaces[k].up);
    }
}

} // verus!
