//! The lifecycle state machine, the concurrent-instance guard, and a model
//! of the persisted filesystem state that proves teardown idempotent.
//!
//! Power-on persists, per router, an anchor file (with the namespace
//! bind-mounted onto it) and a pid file; the front end persists the main
//! anchor and pid the same way. Teardown removes all of it and tolerates
//! every piece being gone already, so applying it twice leaves the same
//! state as applying it once, and a start followed by a stop returns to the
//! state before the start.

use vstd::prelude::*;

use vstd::string::StringExecFns;

use crate::devices::NodeV;
use crate::errors::Error;
use crate::errors::ErrorV;
use crate::plan::plan_addrs_from;
use crate::plan::plan_links_from;
use crate::plan::plan_routers_from;
use crate::plan::plan_switches_from;
use crate::plan::plan_teardown_from;
use crate::plan::router_teardown_actions;
use crate::plan::side_actions;
use crate::plan::link_actions;
use crate::plan::spec_power_off_plan;
use crate::plan::spec_power_on_plan;
use crate::plan::ActionV;
use crate::devices::LinkV;
use crate::topology::TopologyV;

verus! {

/// The states of one lifecycle run, in order: after parsing and validation,
/// after each power-on phase, running, and torn down.
#[derive(Debug, Clone, Copy, PartialEq, Eq, Structural)]
pub enum EngineState {
    Parsed,
    RoutersUp,
    SwitchesUp,
    LinksUp,
    Addressed,
    Running,
    TornDown,
}

/// The state that follows `s` in the linear power-on order; the two
/// terminal states stay where they are.
pub open spec fn spec_next_state(s: EngineState) -> EngineState {
    match s {
        EngineState::Parsed => EngineState::RoutersUp,
        EngineState::RoutersUp => EngineState::SwitchesUp,
        EngineState::SwitchesUp => EngineState::LinksUp,
        EngineState::LinksUp => EngineState::Addressed,
        EngineState::Addressed => EngineState::Running,
        EngineState::Running => EngineState::Running,
        EngineState::TornDown => EngineState::TornDown,
    }
}

impl EngineState {
    /// The state after the next power-on phase completes.
    pub fn advance(self) -> (r: EngineState)
        ensures
            r == spec_next_state(self),
    {
        match self {
            EngineState::Parsed => EngineState::RoutersUp,
            EngineState::RoutersUp => EngineState::SwitchesUp,
            EngineState::SwitchesUp => EngineState::LinksUp,
            EngineState::LinksUp => EngineState::Addressed,
            EngineState::Addressed => EngineState::Running,
            EngineState::Running => EngineState::Running,
            EngineState::TornDown => EngineState::TornDown,
        }
    }
}

/// Decides whether a start may proceed: a present main pid file means
/// another instance is running, and the start is refused.
pub fn start_guard(main_pid_present: bool) -> (r: Result<(), Error>)
    ensures
        main_pid_present <==> r is Err,
        r matches Err(e) ==> e@ == ErrorV::ConcurrentInstance,
{
    if main_pid_present {
        Err(Error::ConcurrentInstance)
    } else {
        Ok(())
    }
}

/// The directory that holds one router's namespace files.
pub open spec fn spec_router_dir(name: Seq<char>) -> Seq<char> {
    "/tmp/netgen-rs/ns/devices/"@ + name
}

/// One router's namespace anchor file.
pub open spec fn spec_router_anchor(name: Seq<char>) -> Seq<char> {
    spec_router_dir(name) + "/net"@
}

/// One router's holder pid file.
pub open spec fn spec_router_pid(name: Seq<char>) -> Seq<char> {
    spec_router_dir(name) + "/.pid"@
}

/// The main namespace anchor file.
pub open spec fn spec_main_anchor() -> Seq<char> {
    "/tmp/netgen-rs/ns/main/net"@
}

/// The main holder pid file.
pub open spec fn spec_main_pid() -> Seq<char> {
    "/tmp/netgen-rs/ns/main/.pid"@
}

/// One router's namespace anchor path.
pub fn router_anchor_path(name: &String) -> (r: String)
    ensures
        r@ == spec_router_anchor(name@),
{
    let mut s = String::from_str("/tmp/netgen-rs/ns/devices/");
    s.append(name.as_str());
    s.append("/net");
    s
}

/// One router's holder pid file path.
pub fn router_pid_path(name: &String) -> (r: String)
    ensures
        r@ == spec_router_pid(name@),
{
    let mut s = String::from_str("/tmp/netgen-rs/ns/devices/");
    s.append(name.as_str());
    s.append("/.pid");
    s
}

/// One router's state directory.
pub fn router_dir_path(name: &String) -> (r: String)
    ensures
        r@ == spec_router_dir(name@),
{
    let mut s = String::from_str("/tmp/netgen-rs/ns/devices/");
    s.append(name.as_str());
    s
}

/// The persisted filesystem state: the namespace files that exist and the
/// anchors that carry a bind mount.
pub struct FsModel {
    pub files: Set<Seq<char>>,
    pub mounts: Set<Seq<char>>,
}

/// The filesystem effect of one action. Only namespace creation and
/// teardown touch the filesystem; removals tolerate absent pieces, since
/// removing from a set is defined whether or not the element is there.
pub open spec fn apply_fs_action(fs: FsModel, a: ActionV) -> FsModel {
    match a {
        ActionV::CreateNamespace { router } => FsModel {
            files: fs.files.insert(spec_router_anchor(router)).insert(spec_router_pid(router)),
            mounts: fs.mounts.insert(spec_router_anchor(router)),
        },
        ActionV::UnmountAnchor { router } => FsModel {
            files: fs.files,
            mounts: fs.mounts.remove(spec_router_anchor(router)),
        },
        ActionV::RemoveRouterDir { router } => FsModel {
            files: fs.files.remove(spec_router_anchor(router)).remove(spec_router_pid(router)),
            mounts: fs.mounts,
        },
        ActionV::UnmountMain => FsModel {
            files: fs.files,
            mounts: fs.mounts.remove(spec_main_anchor()),
        },
        ActionV::RemoveMainDir => FsModel {
            files: fs.files.remove(spec_main_anchor()).remove(spec_main_pid()),
            mounts: fs.mounts,
        },
        _ => fs,
    }
}

/// The filesystem effect of a whole plan, applied left to right.
pub open spec fn apply_fs_actions(fs: FsModel, s: Seq<ActionV>) -> FsModel
    decreases s.len(),
{
    if s.len() == 0 {
        fs
    } else {
        apply_fs_actions(apply_fs_action(fs, s[0]), s.drop_first())
    }
}

/// Applying a concatenation is applying the parts in order.
pub proof fn lemma_apply_fs_append(fs: FsModel, s1: Seq<ActionV>, s2: Seq<ActionV>)
    ensures
        apply_fs_actions(fs, s1 + s2) == apply_fs_actions(apply_fs_actions(fs, s1), s2),
    decreases s1.len(),
{
    if s1.len() == 0 {
        assert(s1 + s2 =~= s2);
    } else {
        assert((s1 + s2)[0] == s1[0]);
        assert((s1 + s2).drop_first() =~= s1.drop_first() + s2);
        lemma_apply_fs_append(apply_fs_action(fs, s1[0]), s1.drop_first(), s2);
    }
}

/// Applying a one-action plan to the filesystem.
pub proof fn lemma_apply_fs_one(fs: FsModel, a0: ActionV)
    ensures
        apply_fs_actions(fs, seq![a0]) == apply_fs_action(fs, a0),
{
    assert(seq![a0][0] == a0);
    assert(seq![a0].drop_first() =~= Seq::<ActionV>::empty());
    assert(apply_fs_actions(apply_fs_action(fs, a0), seq![a0].drop_first()) == apply_fs_action(
        fs,
        a0,
    ));
}

/// Applying a two-action plan to the filesystem.
pub proof fn lemma_apply_fs_two(fs: FsModel, a0: ActionV, a1: ActionV)
    ensures
        apply_fs_actions(fs, seq![a0, a1]) == apply_fs_action(apply_fs_action(fs, a0), a1),
{
    assert(seq![a0, a1][0] == a0);
    assert(seq![a0, a1].drop_first() =~= seq![a1]);
    lemma_apply_fs_one(apply_fs_action(fs, a0), a1);
}

/// Applying a three-action plan to the filesystem.
pub proof fn lemma_apply_fs_three(fs: FsModel, a0: ActionV, a1: ActionV, a2: ActionV)
    ensures
        apply_fs_actions(fs, seq![a0, a1, a2]) == apply_fs_action(
            apply_fs_action(apply_fs_action(fs, a0), a1),
            a2,
        ),
{
    assert(seq![a0, a1, a2][0] == a0);
    assert(seq![a0, a1, a2].drop_first() =~= seq![a1, a2]);
    lemma_apply_fs_two(apply_fs_action(fs, a0), a1, a2);
}

/// The files that teardown removes: every router's anchor and pid file and
/// the main anchor and pid file.
pub open spec fn stop_files(nodes: Seq<NodeV>) -> Set<Seq<char>> {
    Set::new(
        |p: Seq<char>|
            p == spec_main_anchor() || p == spec_main_pid() || exists|i: int|
                0 <= i < nodes.len() && #[trigger] nodes[i] is Router && (p == spec_router_anchor(
                    nodes[i].name(),
                ) || p == spec_router_pid(nodes[i].name())),
    )
}

/// The mounts that teardown unmounts: every router's anchor and the main
/// anchor.
pub open spec fn stop_mounts(nodes: Seq<NodeV>) -> Set<Seq<char>> {
    Set::new(
        |p: Seq<char>|
            p == spec_main_anchor() || exists|i: int|
                0 <= i < nodes.len() && #[trigger] nodes[i] is Router && p == spec_router_anchor(
                    nodes[i].name(),
                ),
    )
}

/// The files that power-on creates: every router's anchor and pid file.
pub open spec fn start_files(nodes: Seq<NodeV>) -> Set<Seq<char>> {
    Set::new(
        |p: Seq<char>|
            exists|i: int|
                0 <= i < nodes.len() && #[trigger] nodes[i] is Router && (p == spec_router_anchor(
                    nodes[i].name(),
                ) || p == spec_router_pid(nodes[i].name())),
    )
}

/// The mounts that power-on creates: every router's anchor.
pub open spec fn start_mounts(nodes: Seq<NodeV>) -> Set<Seq<char>> {
    Set::new(
        |p: Seq<char>|
            exists|i: int|
                0 <= i < nodes.len() && #[trigger] nodes[i] is Router && p == spec_router_anchor(
                    nodes[i].name(),
                ),
    )
}

/// The managed-path sets over a node list, unfolded at its first node.
proof fn lemma_start_sets_unfold(nodes: Seq<NodeV>)
    requires
        nodes.len() > 0,
    ensures
        nodes[0] is Router ==> start_files(nodes) =~= start_files(nodes.drop_first()).insert(
            spec_router_anchor(nodes[0].name()),
        ).insert(spec_router_pid(nodes[0].name())),
        nodes[0] is Router ==> start_mounts(nodes) =~= start_mounts(nodes.drop_first()).insert(
            spec_router_anchor(nodes[0].name()),
        ),
        nodes[0] is Switch ==> start_files(nodes) =~= start_files(nodes.drop_first()),
        nodes[0] is Switch ==> start_mounts(nodes) =~= start_mounts(nodes.drop_first()),
{
    let rest = nodes.drop_first();
    assert(forall|i: int| 0 <= i < rest.len() ==> rest[i] == nodes[i + 1]);
    assert forall|p: Seq<char>| #[trigger] start_files(rest).contains(p) implies start_files(
        nodes,
    ).contains(p) by {
        let i = choose|i: int|
            0 <= i < rest.len() && #[trigger] rest[i] is Router && (p == spec_router_anchor(
                rest[i].name(),
            ) || p == spec_router_pid(rest[i].name()));
        assert(nodes[i + 1] == rest[i]);
    }
    assert forall|p: Seq<char>| #[trigger] start_mounts(rest).contains(p) implies start_mounts(
        nodes,
    ).contains(p) by {
        let i = choose|i: int|
            0 <= i < rest.len() && #[trigger] rest[i] is Router && p == spec_router_anchor(
                rest[i].name(),
            );
        assert(nodes[i + 1] == rest[i]);
    }
    assert forall|p: Seq<char>|
        #[trigger] start_files(nodes).contains(p) && !(p == spec_router_anchor(nodes[0].name())
            && nodes[0] is Router) && !(p == spec_router_pid(nodes[0].name())
            && nodes[0] is Router) implies start_files(rest).contains(p) by {
        let i = choose|i: int|
            0 <= i < nodes.len() && #[trigger] nodes[i] is Router && (p == spec_router_anchor(
                nodes[i].name(),
            ) || p == spec_router_pid(nodes[i].name()));
        assert(i > 0);
        assert(rest[i - 1] == nodes[i]);
    }
    assert forall|p: Seq<char>|
        #[trigger] start_mounts(nodes).contains(p) && !(p == spec_router_anchor(nodes[0].name())
            && nodes[0] is Router) implies start_mounts(rest).contains(p) by {
        let i = choose|i: int|
            0 <= i < nodes.len() && #[trigger] nodes[i] is Router && p == spec_router_anchor(
                nodes[i].name(),
            );
        assert(i > 0);
        assert(rest[i - 1] == nodes[i]);
    }
}

/// The teardown pass removes exactly each router's files and mounts.
proof fn lemma_teardown_pass_effect(fs: FsModel, nodes: Seq<NodeV>)
    ensures
        apply_fs_actions(fs, plan_teardown_from(nodes, Seq::empty())) == (FsModel {
            files: fs.files.difference(start_files(nodes)),
            mounts: fs.mounts.difference(start_mounts(nodes)),
        }),
    decreases nodes.len(),
{
    let target = FsModel {
        files: fs.files.difference(start_files(nodes)),
        mounts: fs.mounts.difference(start_mounts(nodes)),
    };
    if nodes.len() == 0 {
        assert(fs.files.difference(start_files(nodes)) =~= fs.files);
        assert(fs.mounts.difference(start_mounts(nodes)) =~= fs.mounts);
    } else {
        let rest = nodes.drop_first();
        assert(forall|i: int| 0 <= i < rest.len() ==> rest[i] == nodes[i + 1]);
        match nodes[0] {
            NodeV::Router(r) => {
                let k = router_teardown_actions(r.name);
                crate::plan::lemma_plan_teardown_acc(rest, k);
                assert(plan_teardown_from(nodes, Seq::empty()) == k + plan_teardown_from(
                    rest,
                    Seq::empty(),
                ));
                lemma_apply_fs_append(fs, k, plan_teardown_from(rest, Seq::empty()));
                lemma_apply_fs_three(
                    fs,
                    ActionV::KillHolder { router: r.name },
                    ActionV::UnmountAnchor { router: r.name },
                    ActionV::RemoveRouterDir { router: r.name },
                );
                let fs1 = apply_fs_actions(fs, k);
                assert(fs1.files =~= fs.files.remove(spec_router_anchor(r.name)).remove(
                    spec_router_pid(r.name),
                ));
                assert(fs1.mounts =~= fs.mounts.remove(spec_router_anchor(r.name)));
                lemma_teardown_pass_effect(fs1, rest);
                lemma_start_sets_unfold(nodes);
                assert(fs1.files.difference(start_files(rest)) =~= target.files);
                assert(fs1.mounts.difference(start_mounts(rest)) =~= target.mounts);
            },
            NodeV::Switch(_) => {
                lemma_teardown_pass_effect(fs, rest);
                lemma_start_sets_unfold(nodes);
                assert(fs.files.difference(start_files(rest)) =~= target.files);
                assert(fs.mounts.difference(start_mounts(rest)) =~= target.mounts);
            },
        }
    }
}

/// The whole power-off plan takes any filesystem state to that state with
/// every router's and the main namespace's files and mounts gone.
pub proof fn lemma_power_off_effect(fs: FsModel, t: TopologyV)
    ensures
        apply_fs_actions(fs, spec_power_off_plan(t)) == (FsModel {
            files: fs.files.difference(stop_files(t.nodes)),
            mounts: fs.mounts.difference(stop_mounts(t.nodes)),
        }),
{
    let tail = seq![ActionV::UnmountMain, ActionV::RemoveMainDir];
    lemma_apply_fs_append(fs, plan_teardown_from(t.nodes, Seq::empty()), tail);
    lemma_teardown_pass_effect(fs, t.nodes);
    let fs1 = apply_fs_actions(fs, plan_teardown_from(t.nodes, Seq::empty()));
    lemma_apply_fs_two(fs1, ActionV::UnmountMain, ActionV::RemoveMainDir);
    let fs2 = apply_fs_actions(fs1, tail);
    assert(fs2.files =~= fs.files.difference(stop_files(t.nodes)));
    assert(fs2.mounts =~= fs.mounts.difference(stop_mounts(t.nodes)));
}

/// Teardown is idempotent: applying the power-off plan twice leaves the
/// same filesystem state as applying it once.
pub proof fn lemma_stop_idempotent(fs: FsModel, t: TopologyV)
    ensures
        apply_fs_actions(apply_fs_actions(fs, spec_power_off_plan(t)), spec_power_off_plan(t))
            == apply_fs_actions(fs, spec_power_off_plan(t)),
{
    lemma_power_off_effect(fs, t);
    let fs1 = apply_fs_actions(fs, spec_power_off_plan(t));
    lemma_power_off_effect(fs1, t);
    assert(fs1.files.difference(stop_files(t.nodes)) =~= fs1.files);
    assert(fs1.mounts.difference(stop_mounts(t.nodes)) =~= fs1.mounts);
}

/// Every pass of the power-on plan except the router pass leaves the
/// filesystem alone, so power-on creates exactly the router files.
pub proof fn lemma_power_on_fs_effect(fs: FsModel, t: TopologyV, ta: Seq<Seq<char>>, tb: Seq<
    Seq<char>,
>)
    ensures
        apply_fs_actions(fs, spec_power_on_plan(t, ta, tb)) == (FsModel {
            files: fs.files.union(start_files(t.nodes)),
            mounts: fs.mounts.union(start_mounts(t.nodes)),
        }),
{
    let nodes = t.nodes;
    let rpass = plan_routers_from(nodes, Seq::empty());
    let spass = plan_switches_from(nodes, Seq::empty());
    let cpass = plan_links_from(nodes, t.links, ta, tb, Seq::empty());
    let dpass = plan_addrs_from(nodes, Seq::empty());
    crate::plan::lemma_plan_switches_acc(nodes, rpass);
    crate::plan::lemma_plan_links_acc(nodes, t.links, ta, tb, rpass + spass);
    crate::plan::lemma_plan_addrs_acc(nodes, (rpass + spass) + cpass);
    assert(spec_power_on_plan(t, ta, tb) == ((rpass + spass) + cpass) + dpass);
    lemma_apply_fs_append(fs, (rpass + spass) + cpass, dpass);
    lemma_apply_fs_append(fs, rpass + spass, cpass);
    lemma_apply_fs_append(fs, rpass, spass);
    lemma_routers_pass_fs(fs, nodes);
    let fs1 = apply_fs_actions(fs, rpass);
    lemma_fs_noop_switches(nodes);
    lemma_fs_noop_pass(fs1, spass);
    lemma_fs_noop_links(nodes, t.links, ta, tb);
    lemma_fs_noop_pass(apply_fs_actions(fs1, spass), cpass);
    lemma_fs_noop_addrs(nodes);
    lemma_fs_noop_pass(apply_fs_actions(apply_fs_actions(fs1, spass), cpass), dpass);
}

/// An action without filesystem effect.
pub open spec fn fs_noop(a: ActionV) -> bool {
    match a {
        ActionV::CreateNamespace { .. } => false,
        ActionV::UnmountAnchor { .. } => false,
        ActionV::RemoveRouterDir { .. } => false,
        ActionV::UnmountMain => false,
        ActionV::RemoveMainDir => false,
        _ => true,
    }
}

/// A plan of filesystem no-ops leaves the state alone.
pub proof fn lemma_fs_noop_pass(fs: FsModel, s: Seq<ActionV>)
    requires
        forall|i: int| 0 <= i < s.len() ==> fs_noop(#[trigger] s[i]),
    ensures
        apply_fs_actions(fs, s) == fs,
    decreases s.len(),
{
    if s.len() > 0 {
        assert(fs_noop(s[0]));
        assert(forall|i: int| 0 <= i < s.drop_first().len() ==> fs_noop(#[trigger] s.drop_first()[i]));
        lemma_fs_noop_pass(fs, s.drop_first());
    }
}

/// The switch and address passes are filesystem no-ops; so is the link
/// pass.
pub proof fn lemma_fs_noop_addrs(nodes: Seq<NodeV>)
    ensures
        forall|i: int|
            0 <= i < plan_addrs_from(nodes, Seq::empty()).len() ==> fs_noop(
                #[trigger] plan_addrs_from(nodes, Seq::empty())[i],
            ),
{
    crate::model::lemma_plan_addrs_all(nodes, Seq::empty());
}

/// Every action of the switch pass is a filesystem no-op.
pub proof fn lemma_fs_noop_switches(nodes: Seq<NodeV>)
    ensures
        forall|i: int|
            0 <= i < plan_switches_from(nodes, Seq::empty()).len() ==> fs_noop(
                #[trigger] plan_switches_from(nodes, Seq::empty())[i],
            ),
    decreases nodes.len(),
{
    if nodes.len() > 0 {
        let rest = nodes.drop_first();
        lemma_fs_noop_switches(rest);
        match nodes[0] {
            NodeV::Switch(sw) => {
                let k = seq![ActionV::CreateBridge { switch: sw.name }];
                crate::plan::lemma_plan_switches_acc(rest, k);
                let whole = plan_switches_from(nodes, Seq::empty());
                assert(whole == k + plan_switches_from(rest, Seq::empty()));
                assert forall|i: int| 0 <= i < whole.len() implies fs_noop(whole[i]) by {
                    if i == 0 {
                        assert(whole[0] == (ActionV::CreateBridge { switch: sw.name }));
                    } else {
                        assert(whole[i] == plan_switches_from(rest, Seq::empty())[i - 1]);
                    }
                }
            },
            NodeV::Router(_) => {},
        }
    }
}

/// Every action of the link pass is a filesystem no-op.
pub proof fn lemma_fs_noop_links(
    nodes: Seq<NodeV>,
    links: Seq<LinkV>,
    ta: Seq<Seq<char>>,
    tb: Seq<Seq<char>>,
)
    ensures
        forall|i: int|
            0 <= i < plan_links_from(nodes, links, ta, tb, Seq::empty()).len() ==> fs_noop(
                #[trigger] plan_links_from(nodes, links, ta, tb, Seq::empty())[i],
            ),
    decreases links.len(),
{
    if links.len() == 0 || ta.len() == 0 || tb.len() == 0 {
    } else {
        let seg = link_actions(nodes, links[0], ta[0], tb[0]);
        crate::plan::lemma_plan_links_acc(
            nodes,
            links.drop_first(),
            ta.drop_first(),
            tb.drop_first(),
            seg,
        );
        lemma_fs_noop_links(nodes, links.drop_first(), ta.drop_first(), tb.drop_first());
        let rest = plan_links_from(
            nodes,
            links.drop_first(),
            ta.drop_first(),
            tb.drop_first(),
            Seq::empty(),
        );
        let whole = plan_links_from(nodes, links, ta, tb, Seq::empty());
        assert(whole == seg + rest);
        assert forall|i: int| 0 <= i < whole.len() implies fs_noop(whole[i]) by {
            let src = side_actions(nodes, links[0].src_device, ta[0], links[0].src_iface);
            let dst = side_actions(nodes, links[0].dst_device, tb[0], links[0].dst_iface);
            assert(seg == seq![ActionV::CreateVeth { name_a: ta[0], name_b: tb[0] }] + src + dst);
            if i < seg.len() {
                assert(whole[i] == seg[i]);
                if i == 0 {
                } else if i < 1 + src.len() {
                    assert(seg[i] == src[i - 1]);
                } else {
                    assert(seg[i] == dst[i - 1 - src.len()]);
                }
            } else {
                assert(whole[i] == rest[i - seg.len()]);
            }
        }
    }
}

/// The router pass creates exactly each router's files and mounts.
proof fn lemma_routers_pass_fs(fs: FsModel, nodes: Seq<NodeV>)
    ensures
        apply_fs_actions(fs, plan_routers_from(nodes, Seq::empty())) == (FsModel {
            files: fs.files.union(start_files(nodes)),
            mounts: fs.mounts.union(start_mounts(nodes)),
        }),
    decreases nodes.len(),
{
    let target = FsModel {
        files: fs.files.union(start_files(nodes)),
        mounts: fs.mounts.union(start_mounts(nodes)),
    };
    if nodes.len() == 0 {
        assert(fs.files.union(start_files(nodes)) =~= fs.files);
        assert(fs.mounts.union(start_mounts(nodes)) =~= fs.mounts);
    } else {
        let rest = nodes.drop_first();
        assert(forall|i: int| 0 <= i < rest.len() ==> rest[i] == nodes[i + 1]);
        match nodes[0] {
            NodeV::Router(r) => {
                let k = seq![
                    ActionV::CreateNamespace { router: r.name },
                    ActionV::SetLoopbackUp { router: r.name },
                ];
                crate::plan::lemma_plan_routers_acc(rest, k);
                assert(plan_routers_from(nodes, Seq::empty()) == k + plan_routers_from(
                    rest,
                    Seq::empty(),
                ));
                lemma_apply_fs_append(fs, k, plan_routers_from(rest, Seq::empty()));
                lemma_apply_fs_two(
                    fs,
                    ActionV::CreateNamespace { router: r.name },
                    ActionV::SetLoopbackUp { router: r.name },
                );
                let fs1 = apply_fs_actions(fs, k);
                assert(fs1.files =~= fs.files.insert(spec_router_anchor(r.name)).insert(
                    spec_router_pid(r.name),
                ));
                assert(fs1.mounts =~= fs.mounts.insert(spec_router_anchor(r.name)));
                lemma_routers_pass_fs(fs1, rest);
                lemma_start_sets_unfold(nodes);
                assert(fs1.files.union(start_files(rest)) =~= target.files);
                assert(fs1.mounts.union(start_mounts(rest)) =~= target.mounts);
            },
            NodeV::Switch(_) => {
                lemma_routers_pass_fs(fs, rest);
                lemma_start_sets_unfold(nodes);
                assert(fs.files.union(start_files(rest)) =~= target.files);
                assert(fs.mounts.union(start_mounts(rest)) =~= target.mounts);
            },
        }
    }
}

/// A start followed by a stop returns to the filesystem state before the
/// start, whenever none of the managed paths existed beforehand; with that,
/// start–stop–start–stop ends where it began.
pub proof fn lemma_start_stop_roundtrip(
    fs: FsModel,
    t: TopologyV,
    ta: Seq<Seq<char>>,
    tb: Seq<Seq<char>>,
)
    requires
        fs.files.disjoint(stop_files(t.nodes)),
        fs.mounts.disjoint(stop_mounts(t.nodes)),
    ensures
        apply_fs_actions(
            apply_fs_actions(fs, spec_power_on_plan(t, ta, tb)),
            spec_power_off_plan(t),
        ) == fs,
{
    lemma_power_on_fs_effect(fs, t, ta, tb);
    let fs1 = apply_fs_actions(fs, spec_power_on_plan(t, ta, tb));
    lemma_power_off_effect(fs1, t);
    assert(fs1.files.difference(stop_files(t.nodes)) =~= fs.files);
    assert(fs1.mounts.difference(stop_mounts(t.nodes)) =~= fs.mounts);
}

} // verus!
