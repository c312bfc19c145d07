use netgen::engine::start_guard;
use netgen::engine::EngineState;
use netgen::errors::Error;
use netgen::errors::LinkError;
use netgen::names::generate_interim_names;
use netgen::plan::Action;
use netgen::topology::Topology;

const SCENARIO_A: &str = "\
routers: { r1: { interfaces: { eth0: { ipv4: [10.0.0.1/24] } } },
           r2: { interfaces: { eth0: { ipv4: [10.0.0.2/24] } } } }
switches: { sw1: {} }
links:
  - { src-device: r1, src-iface: eth0, dst-device: sw1, dst-iface: p1 }
  - { src-device: r2, src-iface: eth0, dst-device: sw1, dst-iface: p2 }
";

#[test]
fn power_on_plan_orders_phases() {
    let topo = Topology::from_yaml_str(SCENARIO_A).expect("valid topology");
    let tmp_a = vec!["eth-AAAA".to_string(), "eth-CCCC".to_string()];
    let tmp_b = vec!["eth-BBBB".to_string(), "eth-DDDD".to_string()];
    assert_eq!(tmp_a.len(), topo.links.len());
    assert_eq!(tmp_b.len(), topo.links.len());
    let plan = topo.power_on_plan_with(&tmp_a, &tmp_b);

    // Routers first, with their loopbacks, in ascending name order.
    assert!(matches!(&plan[0], Action::CreateNamespace { router } if router == "r1"));
    assert!(matches!(&plan[1], Action::SetLoopbackUp { router } if router == "r1"));
    assert!(matches!(&plan[2], Action::CreateNamespace { router } if router == "r2"));
    assert!(matches!(&plan[3], Action::SetLoopbackUp { router } if router == "r2"));
    // Then the bridges.
    assert!(matches!(&plan[4], Action::CreateBridge { switch } if switch == "sw1"));
    // Then each link: veth, then the router side (move, rename-and-up), then
    // the switch side (rename-and-up, set-master).
    assert!(matches!(
        &plan[5],
        Action::CreateVeth { name_a, name_b } if name_a == "eth-AAAA" && name_b == "eth-BBBB"
    ));
    assert!(matches!(
        &plan[6],
        Action::MoveToNamespace { iface, router } if iface == "eth-AAAA" && router == "r1"
    ));
    assert!(matches!(
        &plan[7],
        Action::RenameUp { namespace: Some(ns), from, to }
            if ns == "r1" && from == "eth-AAAA" && to == "eth0"
    ));
    assert!(matches!(
        &plan[8],
        Action::RenameUp { namespace: None, from, to } if from == "eth-BBBB" && to == "p1"
    ));
    assert!(matches!(
        &plan[9],
        Action::SetMaster { iface, bridge } if iface == "p1" && bridge == "sw1"
    ));
    assert!(matches!(&plan[10], Action::CreateVeth { .. }));
    // The second link takes five more actions; addresses come last.
    assert!(matches!(
        &plan[15],
        Action::AddAddress { router, iface, .. } if router == "r1" && iface == "eth0"
    ));
    assert!(matches!(
        &plan[16],
        Action::AddAddress { router, iface, .. } if router == "r2" && iface == "eth0"
    ));
    assert_eq!(plan.len(), 17);
}

#[test]
fn address_actions_carry_the_configured_networks() {
    let yaml = "\
routers: { r1: { interfaces: { eth0: { ipv4: [10.0.0.1/24, 10.0.1.1/24], ipv6: ['2001:db8::1/96'] } } } }
";
    let topo = Topology::from_yaml_str(yaml).expect("valid topology");
    let plan = topo.power_on_plan_with(&vec![], &vec![]);
    let addrs: Vec<&Action> = plan
        .iter()
        .filter(|a| matches!(a, Action::AddAddress { .. }))
        .collect();
    assert_eq!(addrs.len(), 3);
    match addrs[0] {
        Action::AddAddress { router, iface, addr: netgen::addr::IpCidr::V4(c) } => {
            assert_eq!(router, "r1");
            assert_eq!(iface, "eth0");
            assert_eq!(c.addr, 0x0A000001);
            assert_eq!(c.prefix, 24);
        }
        other => panic!("expected the first IPv4 address, got {other:?}"),
    }
    match addrs[1] {
        Action::AddAddress { addr: netgen::addr::IpCidr::V4(c), .. } => {
            assert_eq!(c.addr, 0x0A000101);
        }
        other => panic!("expected the second IPv4 address, got {other:?}"),
    }
    assert!(matches!(
        addrs[2],
        Action::AddAddress { addr: netgen::addr::IpCidr::V6(c), .. } if c.prefix == 96
    ));
}

#[test]
fn plans_walk_nodes_in_ascending_name_order() {
    let yaml = "\
routers: { z9: {}, a1: {} }
links:
";
    let topo = Topology::from_yaml_str(yaml).expect("valid");
    let plan = topo.power_on_plan_with(&vec![], &vec![]);
    assert!(matches!(&plan[0], Action::CreateNamespace { router } if router == "a1"));
    assert!(matches!(&plan[2], Action::CreateNamespace { router } if router == "z9"));
    let off = topo.power_off_plan();
    assert!(matches!(&off[0], Action::KillHolder { router } if router == "a1"));
    assert!(matches!(&off[3], Action::KillHolder { router } if router == "z9"));
}

#[test]
fn power_off_plan_tears_down_every_router_then_main() {
    let topo = Topology::from_yaml_str(SCENARIO_A).expect("valid topology");
    let plan = topo.power_off_plan();
    assert!(matches!(&plan[0], Action::KillHolder { router } if router == "r1"));
    assert!(matches!(&plan[1], Action::UnmountAnchor { router } if router == "r1"));
    assert!(matches!(&plan[2], Action::RemoveRouterDir { router } if router == "r1"));
    assert!(matches!(&plan[3], Action::KillHolder { router } if router == "r2"));
    assert!(matches!(&plan[4], Action::UnmountAnchor { router } if router == "r2"));
    assert!(matches!(&plan[5], Action::RemoveRouterDir { router } if router == "r2"));
    assert!(matches!(&plan[6], Action::UnmountMain));
    assert!(matches!(&plan[7], Action::RemoveMainDir));
    assert_eq!(plan.len(), 8);
}

#[test]
fn power_off_plan_is_the_same_on_repeat() {
    // The plan depends only on the topology, and every action tolerates its
    // piece being gone, so a second run replays the identical steps.
    let topo = Topology::from_yaml_str(SCENARIO_A).expect("valid topology");
    let first: Vec<String> = topo.power_off_plan().iter().map(|a| format!("{a:?}")).collect();
    let second: Vec<String> = topo.power_off_plan().iter().map(|a| format!("{a:?}")).collect();
    assert_eq!(first, second);
}

#[test]
fn interim_names_are_distinct_and_shaped() {
    let avoid = vec!["eth0".to_string(), "lo".to_string(), "sw1".to_string()];
    let (a, b) = generate_interim_names(8, &avoid).expect("names generated");
    assert_eq!(a.len(), 8);
    assert_eq!(b.len(), 8);
    let mut all: Vec<&String> = a.iter().chain(b.iter()).collect();
    for name in &all {
        assert_eq!(name.chars().count(), 8);
        assert!(name.starts_with("eth-"));
        assert!(name.chars().skip(4).all(|c| c.is_ascii_alphanumeric()));
        assert!(!avoid.contains(name));
    }
    all.sort();
    let before = all.len();
    all.dedup();
    assert_eq!(all.len(), before, "no two interim names may collide");
}

#[test]
fn generated_plan_uses_fresh_interim_names() {
    let topo = Topology::from_yaml_str(SCENARIO_A).expect("valid topology");
    let plan = topo.power_on_plan().expect("plan generated");
    let mut interims: Vec<String> = Vec::new();
    for action in &plan {
        if let Action::CreateVeth { name_a, name_b } = action {
            interims.push(name_a.clone());
            interims.push(name_b.clone());
        }
    }
    assert_eq!(interims.len(), 4);
    for name in &interims {
        assert!(name.starts_with("eth-"));
        assert_ne!(name, "eth0");
        assert_ne!(name, "p1");
        assert_ne!(name, "p2");
    }
    let before = interims.len();
    interims.sort();
    interims.dedup();
    assert_eq!(interims.len(), before);
}

#[test]
fn exit_codes_match_error_families() {
    let config_err = Error::Config(netgen::errors::ConfigError::YamlSyntax);
    assert_eq!(config_err.exit_code(), 1);
    let ns_err = Error::Namespace(netgen::errors::NamespaceError::Unshare);
    assert_eq!(ns_err.exit_code(), 2);
    let link_err = Error::Link(LinkError::ConnectionFailed);
    assert_eq!(link_err.exit_code(), 2);
    assert_eq!(Error::ConcurrentInstance.exit_code(), 3);
}

#[test]
fn start_guard_refuses_a_second_instance() {
    assert!(start_guard(false).is_ok());
    match start_guard(true) {
        Err(Error::ConcurrentInstance) => {}
        other => panic!("expected the concurrent-instance error, got {other:?}"),
    }
}

#[test]
fn engine_states_advance_in_order() {
    let mut s = EngineState::Parsed;
    let expected = [
        EngineState::RoutersUp,
        EngineState::SwitchesUp,
        EngineState::LinksUp,
        EngineState::Addressed,
        EngineState::Running,
        EngineState::Running,
    ];
    for e in expected {
        s = s.advance();
        assert_eq!(s, e);
    }
    assert_eq!(EngineState::TornDown.advance(), EngineState::TornDown);
}

#[test]
fn namespace_paths_follow_the_layout() {
    let name = "r1".to_string();
    assert_eq!(
        netgen::engine::router_anchor_path(&name),
        "/tmp/netgen-rs/ns/devices/r1/net"
    );
    assert_eq!(
        netgen::engine::router_pid_path(&name),
        "/tmp/netgen-rs/ns/devices/r1/.pid"
    );
    assert_eq!(netgen::engine::router_dir_path(&name), "/tmp/netgen-rs/ns/devices/r1");
}
