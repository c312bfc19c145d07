//! The ordered plans of kernel actions that realize and tear down a
//! topology.
//!
//! The library computes plans; an unverified front end performs them against
//! the kernel one by one. The power-on order is fixed: router namespaces with
//! their loopbacks first, then bridges, then every link (veth creation
//! strictly before either side's move, each move before its rename and
//! set-up, set-master after rename), then addresses. Nodes are walked in the
//! order the graph holds them — canonical ascending name order, which
//! parsing establishes — and links in declaration order. The contracts
//! equate each generated plan with its specification-level plan.

use vstd::prelude::*;

use vstd::string::StringExecFns;

use crate::addr::IpCidr;
use crate::names::interims_distinct;
use crate::devices::InterfaceV;
use crate::devices::Link;
use crate::devices::LinkV;
use crate::devices::Node;
use crate::devices::NodeV;
use crate::topology::Topology;
use crate::topology::TopologyV;
use crate::util::view_seq;

verus! {

/// One kernel action of a plan. Interfaces are identified by name; the
/// namespace of a router endpoint is the router's name, `None` standing for
/// the host namespace.
#[derive(Debug, Clone)]
pub enum Action {
    /// Fork a holder, unshare a net namespace, bind-mount its anchor and
    /// record the holder's pid.
    CreateNamespace { router: String },
    /// Bring the loopback interface up inside the router's namespace.
    SetLoopbackUp { router: String },
    /// Create a bridge of this name in the host namespace and bring it up.
    CreateBridge { switch: String },
    /// Create a veth pair under these interim names in the host namespace.
    CreateVeth { name_a: String, name_b: String },
    /// Move the named interface from the host namespace into the router's.
    MoveToNamespace { iface: String, router: String },
    /// Rename the interface and bring it up, inside the given namespace.
    RenameUp { namespace: Option<String>, from: String, to: String },
    /// Attach the interface to the bridge, in the host namespace.
    SetMaster { iface: String, bridge: String },
    /// Add an address to the interface inside the router's namespace.
    AddAddress { router: String, iface: String, addr: IpCidr },
    /// Kill the namespace's holder process, if its pid file is present.
    KillHolder { router: String },
    /// Unmount the router's namespace anchor.
    UnmountAnchor { router: String },
    /// Remove the router's state directory and the files under it.
    RemoveRouterDir { router: String },
    /// Unmount the main namespace anchor.
    UnmountMain,
    /// Remove the main state directory and the files under it.
    RemoveMainDir,
}

/// The mathematical value of an [`Action`].
pub enum ActionV {
    CreateNamespace { router: Seq<char> },
    SetLoopbackUp { router: Seq<char> },
    CreateBridge { switch: Seq<char> },
    CreateVeth { name_a: Seq<char>, name_b: Seq<char> },
    MoveToNamespace { iface: Seq<char>, router: Seq<char> },
    RenameUp { namespace: Option<Seq<char>>, from: Seq<char>, to: Seq<char> },
    SetMaster { iface: Seq<char>, bridge: Seq<char> },
    AddAddress { router: Seq<char>, iface: Seq<char>, addr: IpCidr },
    KillHolder { router: Seq<char> },
    UnmountAnchor { router: Seq<char> },
    RemoveRouterDir { router: Seq<char> },
    UnmountMain,
    RemoveMainDir,
}

impl View for Action {
    type V = ActionV;

    open spec fn view(&self) -> ActionV {
        match self {
            Action::CreateNamespace { router } => ActionV::CreateNamespace { router: router@ },
            Action::SetLoopbackUp { router } => ActionV::SetLoopbackUp { router: router@ },
            Action::CreateBridge { switch } => ActionV::CreateBridge { switch: switch@ },
            Action::CreateVeth { name_a, name_b } => ActionV::CreateVeth {
                name_a: name_a@,
                name_b: name_b@,
            },
            Action::MoveToNamespace { iface, router } => ActionV::MoveToNamespace {
                iface: iface@,
                router: router@,
            },
            Action::RenameUp { namespace, from, to } => ActionV::RenameUp {
                namespace: match namespace {
                    Some(ns) => Some(ns@),
                    None => None,
                },
                from: from@,
                to: to@,
            },
            Action::SetMaster { iface, bridge } => ActionV::SetMaster {
                iface: iface@,
                bridge: bridge@,
            },
            Action::AddAddress { router, iface, addr } => ActionV::AddAddress {
                router: router@,
                iface: iface@,
                addr: *addr,
            },
            Action::KillHolder { router } => ActionV::KillHolder { router: router@ },
            Action::UnmountAnchor { router } => ActionV::UnmountAnchor { router: router@ },
            Action::RemoveRouterDir { router } => ActionV::RemoveRouterDir { router: router@ },
            Action::UnmountMain => ActionV::UnmountMain,
            Action::RemoveMainDir => ActionV::RemoveMainDir,
        }
    }
}

/// The first node of this name, if any.
pub open spec fn find_node(nodes: Seq<NodeV>, name: Seq<char>) -> Option<NodeV>
    decreases nodes.len(),
{
    if nodes.len() == 0 {
        None
    } else if nodes[0].name() == name {
        Some(nodes[0])
    } else {
        find_node(nodes.drop_first(), name)
    }
}

/// The power-on actions of the router pass: one namespace and one loopback
/// set-up per router, in the graph's canonical node order.
pub open spec fn plan_routers_from(nodes: Seq<NodeV>, acc: Seq<ActionV>) -> Seq<ActionV>
    decreases nodes.len(),
{
    if nodes.len() == 0 {
        acc
    } else {
        match nodes[0] {
            NodeV::Router(r) => plan_routers_from(
                nodes.drop_first(),
                acc + seq![
                    ActionV::CreateNamespace { router: r.name },
                    ActionV::SetLoopbackUp { router: r.name },
                ],
            ),
            NodeV::Switch(_) => plan_routers_from(nodes.drop_first(), acc),
        }
    }
}

/// The power-on actions of the switch pass: one bridge per switch, in the
/// graph's canonical node order.
pub open spec fn plan_switches_from(nodes: Seq<NodeV>, acc: Seq<ActionV>) -> Seq<ActionV>
    decreases nodes.len(),
{
    if nodes.len() == 0 {
        acc
    } else {
        match nodes[0] {
            NodeV::Switch(s) => plan_switches_from(
                nodes.drop_first(),
                acc + seq![ActionV::CreateBridge { switch: s.name }],
            ),
            NodeV::Router(_) => plan_switches_from(nodes.drop_first(), acc),
        }
    }
}

/// The actions that realize one side of a link: a router end is moved into
/// the router's namespace and renamed and brought up there; a switch end is
/// renamed and brought up in the host namespace and attached to the bridge.
pub open spec fn side_actions(
    nodes: Seq<NodeV>,
    device: Seq<char>,
    tmp: Seq<char>,
    user: Seq<char>,
) -> Seq<ActionV> {
    match find_node(nodes, device) {
        Some(NodeV::Router(_)) => seq![
            ActionV::MoveToNamespace { iface: tmp, router: device },
            ActionV::RenameUp { namespace: Some(device), from: tmp, to: user },
        ],
        Some(NodeV::Switch(_)) => seq![
            ActionV::RenameUp { namespace: None, from: tmp, to: user },
            ActionV::SetMaster { iface: user, bridge: device },
        ],
        None => Seq::empty(),
    }
}

/// The actions that realize one link under its two interim names: the veth
/// pair first, then the source side, then the destination side.
pub open spec fn link_actions(
    nodes: Seq<NodeV>,
    l: LinkV,
    tmp_a: Seq<char>,
    tmp_b: Seq<char>,
) -> Seq<ActionV> {
    seq![ActionV::CreateVeth { name_a: tmp_a, name_b: tmp_b }] + side_actions(
        nodes,
        l.src_device,
        tmp_a,
        l.src_iface,
    ) + side_actions(nodes, l.dst_device, tmp_b, l.dst_iface)
}

/// The power-on actions of the link pass, with one interim name pair per
/// link.
pub open spec fn plan_links_from(
    nodes: Seq<NodeV>,
    links: Seq<LinkV>,
    tmp_a: Seq<Seq<char>>,
    tmp_b: Seq<Seq<char>>,
    acc: Seq<ActionV>,
) -> Seq<ActionV>
    decreases links.len(),
{
    if links.len() == 0 || tmp_a.len() == 0 || tmp_b.len() == 0 {
        acc
    } else {
        plan_links_from(
            nodes,
            links.drop_first(),
            tmp_a.drop_first(),
            tmp_b.drop_first(),
            acc + link_actions(nodes, links[0], tmp_a[0], tmp_b[0]),
        )
    }
}

/// The address actions of one interface, in declaration order.
pub open spec fn iface_addr_actions(
    router: Seq<char>,
    ifc: InterfaceV,
    acc: Seq<ActionV>,
) -> Seq<ActionV>
    decreases ifc.addresses.len(),
{
    if ifc.addresses.len() == 0 {
        acc
    } else {
        iface_addr_actions(
            router,
            InterfaceV { name: ifc.name, addresses: ifc.addresses.drop_first() },
            acc + seq![
                ActionV::AddAddress { router: router, iface: ifc.name, addr: ifc.addresses[0] },
            ],
        )
    }
}

/// The address actions of one router's interfaces, in declaration order.
pub open spec fn router_addr_actions(
    router: Seq<char>,
    ifs: Seq<InterfaceV>,
    acc: Seq<ActionV>,
) -> Seq<ActionV>
    decreases ifs.len(),
{
    if ifs.len() == 0 {
        acc
    } else {
        router_addr_actions(
            router,
            ifs.drop_first(),
            iface_addr_actions(router, ifs[0], acc),
        )
    }
}

/// The power-on actions of the address pass: every router's interfaces, in
/// the graph's canonical node order.
pub open spec fn plan_addrs_from(nodes: Seq<NodeV>, acc: Seq<ActionV>) -> Seq<ActionV>
    decreases nodes.len(),
{
    if nodes.len() == 0 {
        acc
    } else {
        match nodes[0] {
            NodeV::Router(r) => plan_addrs_from(
                nodes.drop_first(),
                router_addr_actions(r.name, r.interfaces, acc),
            ),
            NodeV::Switch(_) => plan_addrs_from(nodes.drop_first(), acc),
        }
    }
}

/// The whole power-on plan: routers, then switches, then links, then
/// addresses.
pub open spec fn spec_power_on_plan(
    t: TopologyV,
    tmp_a: Seq<Seq<char>>,
    tmp_b: Seq<Seq<char>>,
) -> Seq<ActionV> {
    plan_addrs_from(
        t.nodes,
        plan_links_from(
            t.nodes,
            t.links,
            tmp_a,
            tmp_b,
            plan_switches_from(t.nodes, plan_routers_from(t.nodes, Seq::empty())),
        ),
    )
}

/// The teardown actions of one router: kill the holder, unmount the anchor,
/// remove the directory. Each tolerates the piece being gone already.
pub open spec fn router_teardown_actions(router: Seq<char>) -> Seq<ActionV> {
    seq![
        ActionV::KillHolder { router: router },
        ActionV::UnmountAnchor { router: router },
        ActionV::RemoveRouterDir { router: router },
    ]
}

/// The whole power-off plan: every router's teardown in the graph's
/// canonical node order, then the main anchor and directory.
pub open spec fn plan_teardown_from(nodes: Seq<NodeV>, acc: Seq<ActionV>) -> Seq<ActionV>
    decreases nodes.len(),
{
    if nodes.len() == 0 {
        acc
    } else {
        match nodes[0] {
            NodeV::Router(r) => plan_teardown_from(
                nodes.drop_first(),
                acc + router_teardown_actions(r.name),
            ),
            NodeV::Switch(_) => plan_teardown_from(nodes.drop_first(), acc),
        }
    }
}

/// The whole power-off plan.
pub open spec fn spec_power_off_plan(t: TopologyV) -> Seq<ActionV> {
    plan_teardown_from(t.nodes, Seq::empty()) + seq![ActionV::UnmountMain, ActionV::RemoveMainDir]
}

/// The router pass appends to its accumulator.
pub proof fn lemma_plan_routers_acc(nodes: Seq<NodeV>, acc: Seq<ActionV>)
    ensures
        plan_routers_from(nodes, acc) == acc + plan_routers_from(nodes, Seq::empty()),
    decreases nodes.len(),
{
    if nodes.len() == 0 {
        assert(acc + Seq::<ActionV>::empty() =~= acc);
    } else {
        match nodes[0] {
            NodeV::Router(r) => {
                let k = seq![
                    ActionV::CreateNamespace { router: r.name },
                    ActionV::SetLoopbackUp { router: r.name },
                ];
                lemma_plan_routers_acc(nodes.drop_first(), acc + k);
                lemma_plan_routers_acc(nodes.drop_first(), Seq::empty() + k);
                assert(Seq::<ActionV>::empty() + k =~= k);
                assert((acc + k) + plan_routers_from(nodes.drop_first(), Seq::empty()) =~= acc + (k
                    + plan_routers_from(nodes.drop_first(), Seq::empty())));
            },
            NodeV::Switch(_) => {
                lemma_plan_routers_acc(nodes.drop_first(), acc);
            },
        }
    }
}

/// The switch pass appends to its accumulator.
pub proof fn lemma_plan_switches_acc(nodes: Seq<NodeV>, acc: Seq<ActionV>)
    ensures
        plan_switches_from(nodes, acc) == acc + plan_switches_from(nodes, Seq::empty()),
    decreases nodes.len(),
{
    if nodes.len() == 0 {
        assert(acc + Seq::<ActionV>::empty() =~= acc);
    } else {
        match nodes[0] {
            NodeV::Switch(s) => {
                let k = seq![ActionV::CreateBridge { switch: s.name }];
                lemma_plan_switches_acc(nodes.drop_first(), acc + k);
                lemma_plan_switches_acc(nodes.drop_first(), Seq::empty() + k);
                assert(Seq::<ActionV>::empty() + k =~= k);
                assert((acc + k) + plan_switches_from(nodes.drop_first(), Seq::empty()) =~= acc + (
                k + plan_switches_from(nodes.drop_first(), Seq::empty())));
            },
            NodeV::Router(_) => {
                lemma_plan_switches_acc(nodes.drop_first(), acc);
            },
        }
    }
}

/// The link pass appends to its accumulator.
pub proof fn lemma_plan_links_acc(
    nodes: Seq<NodeV>,
    links: Seq<LinkV>,
    tmp_a: Seq<Seq<char>>,
    tmp_b: Seq<Seq<char>>,
    acc: Seq<ActionV>,
)
    ensures
        plan_links_from(nodes, links, tmp_a, tmp_b, acc) == acc + plan_links_from(
            nodes,
            links,
            tmp_a,
            tmp_b,
            Seq::empty(),
        ),
    decreases links.len(),
{
    if links.len() == 0 || tmp_a.len() == 0 || tmp_b.len() == 0 {
        assert(acc + Seq::<ActionV>::empty() =~= acc);
    } else {
        let k = link_actions(nodes, links[0], tmp_a[0], tmp_b[0]);
        lemma_plan_links_acc(
            nodes,
            links.drop_first(),
            tmp_a.drop_first(),
            tmp_b.drop_first(),
            acc + k,
        );
        lemma_plan_links_acc(
            nodes,
            links.drop_first(),
            tmp_a.drop_first(),
            tmp_b.drop_first(),
            Seq::empty() + k,
        );
        assert(Seq::<ActionV>::empty() + k =~= k);
        let rest = plan_links_from(
            nodes,
            links.drop_first(),
            tmp_a.drop_first(),
            tmp_b.drop_first(),
            Seq::empty(),
        );
        assert((acc + k) + rest =~= acc + (k + rest));
    }
}

/// One interface's address actions append to their accumulator.
pub proof fn lemma_iface_addrs_acc(router: Seq<char>, ifc: InterfaceV, acc: Seq<ActionV>)
    ensures
        iface_addr_actions(router, ifc, acc) == acc + iface_addr_actions(
            router,
            ifc,
            Seq::empty(),
        ),
    decreases ifc.addresses.len(),
{
    if ifc.addresses.len() == 0 {
        assert(acc + Seq::<ActionV>::empty() =~= acc);
    } else {
        let k = seq![
            ActionV::AddAddress { router: router, iface: ifc.name, addr: ifc.addresses[0] },
        ];
        let tail = InterfaceV { name: ifc.name, addresses: ifc.addresses.drop_first() };
        lemma_iface_addrs_acc(router, tail, acc + k);
        lemma_iface_addrs_acc(router, tail, Seq::empty() + k);
        assert(Seq::<ActionV>::empty() + k =~= k);
        let rest = iface_addr_actions(router, tail, Seq::empty());
        assert((acc + k) + rest =~= acc + (k + rest));
    }
}

/// One router's address actions append to their accumulator.
pub proof fn lemma_router_addrs_acc(router: Seq<char>, ifs: Seq<InterfaceV>, acc: Seq<ActionV>)
    ensures
        router_addr_actions(router, ifs, acc) == acc + router_addr_actions(
            router,
            ifs,
            Seq::empty(),
        ),
    decreases ifs.len(),
{
    if ifs.len() == 0 {
        assert(acc + Seq::<ActionV>::empty() =~= acc);
    } else {
        lemma_iface_addrs_acc(router, ifs[0], acc);
        let k = iface_addr_actions(router, ifs[0], Seq::empty());
        lemma_router_addrs_acc(router, ifs.drop_first(), acc + k);
        lemma_router_addrs_acc(router, ifs.drop_first(), Seq::empty() + k);
        assert(Seq::<ActionV>::empty() + k =~= k);
        assert(iface_addr_actions(router, ifs[0], Seq::empty()) =~= Seq::<ActionV>::empty() + k);
        let rest = router_addr_actions(router, ifs.drop_first(), Seq::empty());
        assert((acc + k) + rest =~= acc + (k + rest));
    }
}

/// The address pass appends to its accumulator.
pub proof fn lemma_plan_addrs_acc(nodes: Seq<NodeV>, acc: Seq<ActionV>)
    ensures
        plan_addrs_from(nodes, acc) == acc + plan_addrs_from(nodes, Seq::empty()),
    decreases nodes.len(),
{
    if nodes.len() == 0 {
        assert(acc + Seq::<ActionV>::empty() =~= acc);
    } else {
        match nodes[0] {
            NodeV::Router(r) => {
                lemma_router_addrs_acc(r.name, r.interfaces, acc);
                let k = router_addr_actions(r.name, r.interfaces, Seq::empty());
                lemma_plan_addrs_acc(nodes.drop_first(), acc + k);
                lemma_plan_addrs_acc(nodes.drop_first(), k);
                assert(router_addr_actions(r.name, r.interfaces, Seq::empty()) =~= Seq::<
                    ActionV,
                >::empty() + k);
                let rest = plan_addrs_from(nodes.drop_first(), Seq::empty());
                assert((acc + k) + rest =~= acc + (k + rest));
                assert(plan_addrs_from(nodes, Seq::empty()) == k + rest) by {
                    lemma_plan_addrs_acc(nodes.drop_first(), Seq::empty() + k);
                    assert(Seq::<ActionV>::empty() + k =~= k);
                }
            },
            NodeV::Switch(_) => {
                lemma_plan_addrs_acc(nodes.drop_first(), acc);
            },
        }
    }
}

/// The interim names equal no name the topology already uses: not the
/// loopback, no node name, no link endpoint name.
pub open spec fn interims_avoid_topology(
    t: TopologyV,
    ta: Seq<Seq<char>>,
    tb: Seq<Seq<char>>,
) -> bool {
    &&& forall|i: int| 0 <= i < ta.len() ==> #[trigger] ta[i] != "lo"@
    &&& forall|i: int| 0 <= i < tb.len() ==> #[trigger] tb[i] != "lo"@
    &&& forall|i: int, j: int|
        0 <= i < ta.len() && 0 <= j < t.nodes.len() ==> #[trigger] ta[i] != (
        #[trigger] t.nodes[j].name()) && tb[i] != t.nodes[j].name()
    &&& forall|i: int, j: int|
        0 <= i < ta.len() && 0 <= j < t.links.len() ==> #[trigger] ta[i] != (
        #[trigger] t.links[j].src_iface) && ta[i] != t.links[j].dst_iface && tb[i]
            != t.links[j].src_iface && tb[i] != t.links[j].dst_iface
}

/// Appends one name, keeping every already-listed name listed.
fn push_name(names: &mut Vec<String>, name: &String)
    ensures
        crate::names::str_seq_contains(view_seq(final(names)@), name@),
        forall|x: Seq<char>|
            crate::names::str_seq_contains(view_seq(old(names)@), x)
                ==> crate::names::str_seq_contains(view_seq(final(names)@), x),
{
    let ghost prev = view_seq(names@);
    names.push(name.clone());
    proof {
        assert(view_seq(names@) =~= prev.push(name@));
        assert(prev.push(name@)[prev.len() as int] == name@);
        assert forall|x: Seq<char>|
            crate::names::str_seq_contains(prev, x) implies crate::names::str_seq_contains(
            prev.push(name@),
            x,
        ) by {
            crate::names::lemma_contains_push(prev, x, name@);
        }
    }
}

/// The teardown pass appends to its accumulator.
pub proof fn lemma_plan_teardown_acc(nodes: Seq<NodeV>, acc: Seq<ActionV>)
    ensures
        plan_teardown_from(nodes, acc) == acc + plan_teardown_from(nodes, Seq::empty()),
    decreases nodes.len(),
{
    if nodes.len() == 0 {
        assert(acc + Seq::<ActionV>::empty() =~= acc);
    } else {
        match nodes[0] {
            NodeV::Router(r) => {
                let k = router_teardown_actions(r.name);
                lemma_plan_teardown_acc(nodes.drop_first(), acc + k);
                lemma_plan_teardown_acc(nodes.drop_first(), Seq::empty() + k);
                assert(Seq::<ActionV>::empty() + k =~= k);
                assert((acc + k) + plan_teardown_from(nodes.drop_first(), Seq::empty()) =~= acc + (
                k + plan_teardown_from(nodes.drop_first(), Seq::empty())));
            },
            NodeV::Switch(_) => {
                lemma_plan_teardown_acc(nodes.drop_first(), acc);
            },
        }
    }
}

impl Topology {
    /// The first node of this name, if any.
    pub fn find_node(&self, name: &String) -> (r: Option<&Node>)
        ensures
            match r {
                Some(n) => find_node(self@.nodes, name@) == Some(n@),
                None => find_node(self@.nodes, name@) is None,
            },
    {
        let n = self.nodes.len();
        let mut i: usize = 0;
        proof {
            assert(self@.nodes.skip(0) =~= self@.nodes);
        }
        while i < n
            invariant
                n == self.nodes@.len(),
                i <= n,
                self@.nodes.len() == n,
                find_node(self@.nodes, name@) == find_node(self@.nodes.skip(i as int), name@),
            decreases n - i,
        {
            proof {
                assert(self@.nodes.skip(i as int)[0] == self@.nodes[i as int]);
                assert(self@.nodes[i as int] == self.nodes@[i as int]@);
                assert(self@.nodes.skip(i as int).drop_first() =~= self@.nodes.skip(i + 1));
            }
            if *self.nodes[i].name() == *name {
                return Some(&self.nodes[i]);
            }
            i += 1;
        }
        proof {
            assert(self@.nodes.skip(n as int) =~= Seq::<NodeV>::empty());
        }
        None
    }

    /// Computes the power-on plan under the given interim names, one pair
    /// per link: router namespaces and loopbacks first, then bridges, then
    /// every link, then addresses.
    #[verifier::loop_isolation(false)]
    pub fn power_on_plan_with(&self, tmp_a: &Vec<String>, tmp_b: &Vec<String>) -> (r: Vec<Action>)
        requires
            tmp_a@.len() == self@.links.len(),
            tmp_b@.len() == self@.links.len(),
        ensures
            view_seq(r@) == spec_power_on_plan(self@, view_seq(tmp_a@), view_seq(tmp_b@)),
    {
        let mut plan: Vec<Action> = Vec::new();
        proof {
            assert(view_seq(plan@) =~= Seq::<ActionV>::empty());
        }
        // Router pass.
        let n = self.nodes.len();
        let mut i: usize = 0;
        proof {
            assert(self@.nodes.skip(0) =~= self@.nodes);
        }
        while i < n
            invariant
                i <= n,
                plan_routers_from(self@.nodes, Seq::empty()) == plan_routers_from(
                    self@.nodes.skip(i as int),
                    view_seq(plan@),
                ),
            decreases n - i,
        {
            proof {
                assert(self@.nodes.skip(i as int)[0] == self.nodes@[i as int]@);
                assert(self@.nodes.skip(i as int).drop_first() =~= self@.nodes.skip(i + 1));
            }
            match &self.nodes[i] {
                Node::Router(rt) => {
                    let ghost prev = view_seq(plan@);
                    plan.push(Action::CreateNamespace { router: rt.name.clone() });
                    plan.push(Action::SetLoopbackUp { router: rt.name.clone() });
                    proof {
                        assert(view_seq(plan@) =~= prev + seq![
                            ActionV::CreateNamespace { router: rt.name@ },
                            ActionV::SetLoopbackUp { router: rt.name@ },
                        ]);
                    }
                },
                Node::Switch(_) => {},
            }
            i += 1;
        }
        proof {
            assert(self@.nodes.skip(n as int) =~= Seq::<NodeV>::empty());
        }
        // Switch pass.
        let mut i: usize = 0;
        let ghost after_routers = view_seq(plan@);
        while i < n
            invariant
                i <= n,
                plan_switches_from(self@.nodes, after_routers) == plan_switches_from(
                    self@.nodes.skip(i as int),
                    view_seq(plan@),
                ),
            decreases n - i,
        {
            proof {
                assert(self@.nodes.skip(i as int)[0] == self.nodes@[i as int]@);
                assert(self@.nodes.skip(i as int).drop_first() =~= self@.nodes.skip(i + 1));
            }
            match &self.nodes[i] {
                Node::Switch(sw) => {
                    let ghost prev = view_seq(plan@);
                    plan.push(Action::CreateBridge { switch: sw.name.clone() });
                    proof {
                        assert(view_seq(plan@) =~= prev + seq![
                            ActionV::CreateBridge { switch: sw.name@ },
                        ]);
                    }
                },
                Node::Router(_) => {},
            }
            i += 1;
        }
        // Link pass.
        let m = self.links.len();
        let mut i: usize = 0;
        let ghost after_switches = view_seq(plan@);
        proof {
            assert(self@.links.skip(0) =~= self@.links);
            assert(view_seq(tmp_a@).skip(0) =~= view_seq(tmp_a@));
            assert(view_seq(tmp_b@).skip(0) =~= view_seq(tmp_b@));
        }
        while i < m
            invariant
                i <= m,
                plan_links_from(
                    self@.nodes,
                    self@.links,
                    view_seq(tmp_a@),
                    view_seq(tmp_b@),
                    after_switches,
                ) == plan_links_from(
                    self@.nodes,
                    self@.links.skip(i as int),
                    view_seq(tmp_a@).skip(i as int),
                    view_seq(tmp_b@).skip(i as int),
                    view_seq(plan@),
                ),
            decreases m - i,
        {
            proof {
                assert(self@.links.skip(i as int)[0] == self.links@[i as int]@);
                assert(self@.links.skip(i as int).drop_first() =~= self@.links.skip(i + 1));
                assert(view_seq(tmp_a@).skip(i as int)[0] == tmp_a@[i as int]@);
                assert(view_seq(tmp_a@).skip(i as int).drop_first() =~= view_seq(tmp_a@).skip(
                    i + 1,
                ));
                assert(view_seq(tmp_b@).skip(i as int)[0] == tmp_b@[i as int]@);
                assert(view_seq(tmp_b@).skip(i as int).drop_first() =~= view_seq(tmp_b@).skip(
                    i + 1,
                ));
            }
            let ghost prev = view_seq(plan@);
            plan.push(
                Action::CreateVeth { name_a: tmp_a[i].clone(), name_b: tmp_b[i].clone() },
            );
            proof {
                assert(view_seq(plan@) =~= prev + seq![
                    ActionV::CreateVeth { name_a: tmp_a@[i as int]@, name_b: tmp_b@[i as int]@ },
                ]);
            }
            self.push_side_actions(&mut plan, &self.links[i].src_device, &tmp_a[i], &self.links[i].src_iface);
            self.push_side_actions(&mut plan, &self.links[i].dst_device, &tmp_b[i], &self.links[i].dst_iface);
            proof {
                assert(view_seq(plan@) =~= prev + link_actions(
                    self@.nodes,
                    self@.links[i as int],
                    tmp_a@[i as int]@,
                    tmp_b@[i as int]@,
                ));
            }
            i += 1;
        }
        // Address pass.
        let mut i: usize = 0;
        let ghost after_links = view_seq(plan@);
        while i < n
            invariant
                i <= n,
                plan_addrs_from(self@.nodes, after_links) == plan_addrs_from(
                    self@.nodes.skip(i as int),
                    view_seq(plan@),
                ),
            decreases n - i,
        {
            proof {
                assert(self@.nodes.skip(i as int)[0] == self.nodes@[i as int]@);
                assert(self@.nodes.skip(i as int).drop_first() =~= self@.nodes.skip(i + 1));
            }
            match &self.nodes[i] {
                Node::Router(rt) => {
                    let ifn = rt.interfaces.len();
                    let mut j: usize = 0;
                    let ghost at_router = view_seq(plan@);
                    proof {
                        assert(rt@.interfaces.skip(0) =~= rt@.interfaces);
                    }
                    while j < ifn
                        invariant
                            j <= ifn,
                            ifn == rt.interfaces@.len(),
                            router_addr_actions(rt.name@, rt@.interfaces, at_router)
                                == router_addr_actions(
                                rt.name@,
                                rt@.interfaces.skip(j as int),
                                view_seq(plan@),
                            ),
                        decreases ifn - j,
                    {
                        proof {
                            assert(rt@.interfaces.skip(j as int)[0] == rt.interfaces@[j as int]@);
                            assert(rt@.interfaces.skip(j as int).drop_first() =~= rt@.interfaces.skip(
                                j + 1,
                            ));
                        }
                        let ifc = &rt.interfaces[j];
                        let an = ifc.addresses.len();
                        let mut k: usize = 0;
                        let ghost at_iface = view_seq(plan@);
                        proof {
                            assert(ifc@.addresses.skip(0) =~= ifc@.addresses);
                            assert(ifc@ == (InterfaceV {
                                name: ifc.name@,
                                addresses: ifc@.addresses.skip(0),
                            }));
                        }
                        while k < an
                            invariant
                                k <= an,
                                an == ifc.addresses@.len(),
                                iface_addr_actions(rt.name@, ifc@, at_iface) == iface_addr_actions(
                                    rt.name@,
                                    InterfaceV {
                                        name: ifc.name@,
                                        addresses: ifc@.addresses.skip(k as int),
                                    },
                                    view_seq(plan@),
                                ),
                            decreases an - k,
                        {
                            proof {
                                assert(ifc@.addresses.skip(k as int)[0] == ifc.addresses@[k as int]);
                                assert(ifc@.addresses.skip(k as int).drop_first()
                                    =~= ifc@.addresses.skip(k + 1));
                            }
                            let ghost prev = view_seq(plan@);
                            plan.push(
                                Action::AddAddress {
                                    router: rt.name.clone(),
                                    iface: ifc.name.clone(),
                                    addr: ifc.addresses[k],
                                },
                            );
                            proof {
                                assert(view_seq(plan@) =~= prev + seq![
                                    ActionV::AddAddress {
                                        router: rt.name@,
                                        iface: ifc.name@,
                                        addr: ifc.addresses@[k as int],
                                    },
                                ]);
                            }
                            k += 1;
                        }
                        proof {
                            assert(ifc@.addresses.skip(an as int) =~= Seq::<IpCidr>::empty());
                        }
                        j += 1;
                    }
                    proof {
                        assert(rt@.interfaces.skip(ifn as int) =~= Seq::<InterfaceV>::empty());
                    }
                },
                Node::Switch(_) => {},
            }
            i += 1;
        }
        plan
    }

    /// Appends the actions that realize one side of a link.
    fn push_side_actions(
        &self,
        plan: &mut Vec<Action>,
        device: &String,
        tmp: &String,
        user: &String,
    )
        ensures
            view_seq(final(plan)@) == view_seq(old(plan)@) + side_actions(
                self@.nodes,
                device@,
                tmp@,
                user@,
            ),
    {
        match self.find_node(device) {
            Some(node) => match node {
                Node::Router(_) => {
                    let ghost prev = view_seq(plan@);
                    plan.push(
                        Action::MoveToNamespace { iface: tmp.clone(), router: device.clone() },
                    );
                    plan.push(
                        Action::RenameUp {
                            namespace: Some(device.clone()),
                            from: tmp.clone(),
                            to: user.clone(),
                        },
                    );
                    proof {
                        assert(view_seq(plan@) =~= prev + side_actions(
                            self@.nodes,
                            device@,
                            tmp@,
                            user@,
                        ));
                    }
                },
                Node::Switch(_) => {
                    let ghost prev = view_seq(plan@);
                    plan.push(
                        Action::RenameUp { namespace: None, from: tmp.clone(), to: user.clone() },
                    );
                    plan.push(Action::SetMaster { iface: user.clone(), bridge: device.clone() });
                    proof {
                        assert(view_seq(plan@) =~= prev + side_actions(
                            self@.nodes,
                            device@,
                            tmp@,
                            user@,
                        ));
                    }
                },
            },
            None => {
                proof {
                    assert(view_seq(plan@) =~= view_seq(plan@) + side_actions(
                        self@.nodes,
                        device@,
                        tmp@,
                        user@,
                    ));
                }
            },
        }
    }

    /// Every name the topology already uses, for the interim names to
    /// avoid: the loopback, node names, declared interface names, and link
    /// endpoint names.
    #[verifier::loop_isolation(false)]
    #[verifier::rlimit(60)]
    fn used_names(&self) -> (r: Vec<String>)
        ensures
            crate::names::str_seq_contains(view_seq(r@), "lo"@),
            forall|i: int|
                0 <= i < self@.nodes.len() ==> crate::names::str_seq_contains(
                    view_seq(r@),
                    #[trigger] self@.nodes[i].name(),
                ),
            forall|i: int|
                0 <= i < self@.links.len() ==> crate::names::str_seq_contains(
                    view_seq(r@),
                    #[trigger] self@.links[i].src_iface,
                ) && crate::names::str_seq_contains(view_seq(r@), self@.links[i].dst_iface),
    {
        let mut names: Vec<String> = Vec::new();
        push_name(&mut names, &String::from_str("lo"));
        let mut i: usize = 0;
        while i < self.nodes.len()
            invariant
                crate::names::str_seq_contains(view_seq(names@), "lo"@),
                forall|j: int|
                    0 <= j < i ==> crate::names::str_seq_contains(
                        view_seq(names@),
                        #[trigger] self@.nodes[j].name(),
                    ),
            decreases self.nodes.len() - i,
        {
            push_name(&mut names, self.nodes[i].name());
            let ifs = match &self.nodes[i] {
                Node::Router(rt) => &rt.interfaces,
                Node::Switch(sw) => &sw.interfaces,
            };
            let mut j: usize = 0;
            while j < ifs.len()
                invariant
                    crate::names::str_seq_contains(view_seq(names@), "lo"@),
                    crate::names::str_seq_contains(view_seq(names@), self@.nodes[i as int].name()),
                    forall|k: int|
                        0 <= k < i ==> crate::names::str_seq_contains(
                            view_seq(names@),
                            #[trigger] self@.nodes[k].name(),
                        ),
                decreases ifs.len() - j,
            {
                push_name(&mut names, &ifs[j].name);
                j += 1;
            }
            i += 1;
        }
        let mut i: usize = 0;
        while i < self.links.len()
            invariant
                crate::names::str_seq_contains(view_seq(names@), "lo"@),
                forall|j: int|
                    0 <= j < self@.nodes.len() ==> crate::names::str_seq_contains(
                        view_seq(names@),
                        #[trigger] self@.nodes[j].name(),
                    ),
                forall|j: int|
                    0 <= j < i ==> crate::names::str_seq_contains(
                        view_seq(names@),
                        #[trigger] self@.links[j].src_iface,
                    ) && crate::names::str_seq_contains(
                        view_seq(names@),
                        self@.links[j].dst_iface,
                    ),
            decreases self.links.len() - i,
        {
            let ghost before = view_seq(names@);
            push_name(&mut names, &self.links[i].src_iface);
            let ghost mid = view_seq(names@);
            push_name(&mut names, &self.links[i].dst_iface);
            proof {
                assert forall|j: int| 0 <= j < i + 1 implies crate::names::str_seq_contains(
                    view_seq(names@),
                    #[trigger] self@.links[j].src_iface,
                ) && crate::names::str_seq_contains(
                    view_seq(names@),
                    self@.links[j].dst_iface,
                ) by {
                    assert(self@.links[j] == self.links@[j]@);
                    if j < i {
                        assert(crate::names::str_seq_contains(before, self@.links[j].src_iface));
                        assert(crate::names::str_seq_contains(mid, self@.links[j].src_iface));
                        assert(crate::names::str_seq_contains(before, self@.links[j].dst_iface));
                        assert(crate::names::str_seq_contains(mid, self@.links[j].dst_iface));
                    } else {
                        assert(crate::names::str_seq_contains(mid, self@.links[j].src_iface));
                    }
                }
            }
            i += 1;
        }
        names
    }

    /// Computes the whole power-on plan, drawing a fresh interim name pair
    /// for every link: the names are pairwise distinct across the run, and
    /// each avoids every name the topology already uses. Fails only when
    /// the collision-retry bound is exhausted, which needs at least one link
    /// to draw for: a topology without links always gets its plan.
    pub fn power_on_plan(&self) -> (r: Result<Vec<Action>, crate::errors::LinkError>)
        ensures
            self@.links.len() == 0 ==> r is Ok,
            match r {
                Ok(plan) => exists|ta: Seq<Seq<char>>, tb: Seq<Seq<char>>|
                    {
                        &&& ta.len() == self@.links.len()
                        &&& tb.len() == self@.links.len()
                        &&& #[trigger] interims_distinct(ta, tb)
                        &&& interims_avoid_topology(self@, ta, tb)
                        &&& view_seq(plan@) == #[trigger] spec_power_on_plan(self@, ta, tb)
                    },
                Err(e) => e@ == (crate::errors::LinkErrorV::ExecuteFailed {
                    operation: "interim-names"@,
                }),
            },
    {
        let avoid = self.used_names();
        match crate::names::generate_interim_names(self.links.len(), &avoid) {
            None => Err(
                crate::errors::LinkError::ExecuteFailed {
                    operation: String::from_str("interim-names"),
                },
            ),
            Some((tmp_a, tmp_b)) => {
                let plan = self.power_on_plan_with(&tmp_a, &tmp_b);
                proof {
                    let ghost ta = view_seq(tmp_a@);
                    let ghost tb = view_seq(tmp_b@);
                    let ghost av = view_seq(avoid@);
                    assert forall|i: int, x: Seq<char>|
                        0 <= i < ta.len() && crate::names::str_seq_contains(av, x) implies ta[i]
                        != x && tb[i] != x by {
                        let k = choose|k: int| 0 <= k < av.len() && av[k] == x;
                        assert(ta[i] != av[k] && tb[i] != av[k]);
                    }
                    assert(interims_avoid_topology(self@, ta, tb));
                    assert(interims_distinct(ta, tb) && view_seq(plan@) == spec_power_on_plan(
                        self@,
                        ta,
                        tb,
                    ));
                }
                Ok(plan)
            },
        }
    }

    /// Computes the power-off plan: each router's holder killed, anchor
    /// unmounted and directory removed, in the graph's canonical node order,
    /// then the main anchor
    /// and directory. Every step tolerates its piece being gone already, so
    /// the plan applies to any partial state.
    #[verifier::loop_isolation(false)]
    pub fn power_off_plan(&self) -> (r: Vec<Action>)
        ensures
            view_seq(r@) == spec_power_off_plan(self@),
    {
        let mut plan: Vec<Action> = Vec::new();
        proof {
            assert(view_seq(plan@) =~= Seq::<ActionV>::empty());
            assert(self@.nodes.skip(0) =~= self@.nodes);
        }
        let n = self.nodes.len();
        let mut i: usize = 0;
        while i < n
            invariant
                i <= n,
                plan_teardown_from(self@.nodes, Seq::empty()) == plan_teardown_from(
                    self@.nodes.skip(i as int),
                    view_seq(plan@),
                ),
            decreases n - i,
        {
            proof {
                assert(self@.nodes.skip(i as int)[0] == self.nodes@[i as int]@);
                assert(self@.nodes.skip(i as int).drop_first() =~= self@.nodes.skip(i + 1));
            }
            match &self.nodes[i] {
                Node::Router(rt) => {
                    let ghost prev = view_seq(plan@);
                    plan.push(Action::KillHolder { router: rt.name.clone() });
                    plan.push(Action::UnmountAnchor { router: rt.name.clone() });
                    plan.push(Action::RemoveRouterDir { router: rt.name.clone() });
                    proof {
                        assert(view_seq(plan@) =~= prev + router_teardown_actions(rt.name@));
                    }
                },
                Node::Switch(_) => {},
            }
            i += 1;
        }
        proof {
            assert(self@.nodes.skip(n as int) =~= Seq::<NodeV>::empty());
        }
        let ghost before_main = view_seq(plan@);
        plan.push(Action::UnmountMain);
        plan.push(Action::RemoveMainDir);
        proof {
            assert(view_seq(plan@) =~= before_main + seq![
                ActionV::UnmountMain,
                ActionV::RemoveMainDir,
            ]);
        }
        plan
    }
}

} // verus!
