use netgen::addr::IpCidr;
use netgen::devices::Link;
use netgen::devices::Node;
use netgen::errors::ConfigError;
use netgen::errors::Error;
use netgen::doc::DocNode;
use netgen::topology::Topology;

const SCENARIO_A: &str = "\
routers: { r1: { interfaces: { eth0: { ipv4: [10.0.0.1/24] } } },
           r2: { interfaces: { eth0: { ipv4: [10.0.0.2/24] } } } }
switches: { sw1: {} }
links:
  - { src-device: r1, src-iface: eth0, dst-device: sw1, dst-iface: p1 }
  - { src-device: r2, src-iface: eth0, dst-device: sw1, dst-iface: p2 }
";

#[test]
fn scenario_two_routers_one_switch_parses() {
    let topo = Topology::from_yaml_str(SCENARIO_A).expect("valid topology");
    assert_eq!(topo.nodes.len(), 3);
    assert_eq!(topo.links.len(), 2);
    match &topo.nodes[0] {
        Node::Router(r) => {
            assert_eq!(r.name, "r1");
            assert_eq!(r.interfaces.len(), 1);
            assert_eq!(r.interfaces[0].name, "eth0");
            assert_eq!(r.interfaces[0].addresses.len(), 1);
            match r.interfaces[0].addresses[0] {
                IpCidr::V4(c) => {
                    assert_eq!(c.addr, 0x0A000001);
                    assert_eq!(c.prefix, 24);
                }
                IpCidr::V6(_) => panic!("expected an IPv4 network"),
            }
        }
        Node::Switch(_) => panic!("expected router r1 first"),
    }
    match &topo.nodes[2] {
        Node::Switch(s) => {
            assert_eq!(s.name, "sw1");
            assert!(s.interfaces.is_empty());
            assert!(s.ifindex.is_none());
        }
        Node::Router(_) => panic!("expected switch sw1 last"),
    }
    assert_eq!(topo.links[0].src_device, "r1");
    assert_eq!(topo.links[0].src_iface, "eth0");
    assert_eq!(topo.links[0].dst_device, "sw1");
    assert_eq!(topo.links[0].dst_iface, "p1");
}

#[test]
fn scenario_duplicate_link_rejected() {
    let yaml = "\
routers: { r1: { interfaces: { eth0: { ipv4: [10.0.0.1/24] } } },
           r2: { interfaces: { eth0: { ipv4: [10.0.0.2/24] } } } }
switches: { sw1: {} }
links:
  - { src-device: r1, src-iface: eth0, dst-device: sw1, dst-iface: p1 }
  - { src-device: r2, src-iface: eth0, dst-device: sw1, dst-iface: p2 }
  - { src-device: r2, src-iface: eth0, dst-device: sw1, dst-iface: p2 }
";
    match Topology::from_yaml_str(yaml) {
        Err(Error::Config(ConfigError::DuplicateLink { src, dst })) => {
            assert_eq!(src, "r2:eth0");
            assert_eq!(dst, "sw1:p2");
        }
        other => panic!("expected a duplicate-link error, got {other:?}"),
    }
}

#[test]
fn scenario_reversed_duplicate_link_rejected() {
    let yaml = "\
routers: { r1: {}, r2: {} }
links:
  - { src-device: r1, src-iface: a, dst-device: r2, dst-iface: b }
  - { src-device: r2, src-iface: b, dst-device: r1, dst-iface: a }
";
    match Topology::from_yaml_str(yaml) {
        Err(Error::Config(ConfigError::DuplicateLink { src, dst })) => {
            assert_eq!(src, "r2:b");
            assert_eq!(dst, "r1:a");
        }
        other => panic!("expected a duplicate-link error, got {other:?}"),
    }
}

#[test]
fn scenario_unknown_node_rejected() {
    let yaml = "\
routers: { r1: { interfaces: { eth0: { ipv4: [10.0.0.1/24] } } } }
switches: { sw1: {} }
links:
  - { src-device: r3, src-iface: eth0, dst-device: sw1, dst-iface: p1 }
";
    match Topology::from_yaml_str(yaml) {
        Err(Error::Config(ConfigError::UnknownNode { name })) => {
            assert_eq!(name, "r3");
        }
        other => panic!("expected an unknown-node error, got {other:?}"),
    }
}

#[test]
fn scenario_invalid_cidr_rejected() {
    let yaml = "routers: { r1: { interfaces: { eth0: { ipv4: [10.0.0.300/24] } } } }\n";
    match Topology::from_yaml_str(yaml) {
        Err(Error::Config(ConfigError::InvalidAddress { family, address, interface, source })) => {
            assert_eq!(family, "ipv4");
            assert_eq!(address, "10.0.0.300/24");
            assert_eq!(interface, "eth0");
            assert_eq!(source, "r1");
        }
        other => panic!("expected an invalid-address error, got {other:?}"),
    }
}

#[test]
fn duplicate_node_rejected() {
    let yaml = "\
routers: { r1: {} }
switches: { r1: {} }
";
    match Topology::from_yaml_str(yaml) {
        Err(Error::Config(ConfigError::DuplicateNode { name })) => {
            assert_eq!(name, "r1");
        }
        other => panic!("expected a duplicate-node error, got {other:?}"),
    }
}

#[test]
fn missing_link_field_rejected() {
    let yaml = "\
routers: { r1: {}, r2: {} }
links:
  - { src-device: r1, src-iface: eth0, dst-device: r2 }
";
    match Topology::from_yaml_str(yaml) {
        Err(Error::Config(ConfigError::MissingField { field })) => {
            assert_eq!(field, "links->dst-iface");
        }
        other => panic!("expected a missing-field error, got {other:?}"),
    }
}

#[test]
fn wrong_kind_rejected_with_field_path() {
    let yaml = "routers: [r1, r2]\n";
    match Topology::from_yaml_str(yaml) {
        Err(Error::Config(ConfigError::IncorrectType { field, expected })) => {
            assert_eq!(field, "routers");
            assert_eq!(expected, "mapping");
        }
        other => panic!("expected a wrong-kind error, got {other:?}"),
    }
    let yaml = "routers: { r1: { interfaces: { eth0: { ipv4: 10.0.0.1/24 } } } }\n";
    match Topology::from_yaml_str(yaml) {
        Err(Error::Config(ConfigError::IncorrectType { field, expected })) => {
            assert_eq!(field, "routers->r1->interfaces->eth0->ipv4");
            assert_eq!(expected, "sequence");
        }
        other => panic!("expected a wrong-kind error, got {other:?}"),
    }
}

#[test]
fn tokenizer_error_surfaces_as_yaml_syntax() {
    let yaml = "routers: { r1: { interfaces: {\n";
    match Topology::from_yaml_str(yaml) {
        Err(Error::Config(ConfigError::YamlSyntax)) => {}
        other => panic!("expected a tokenizer error, got {other:?}"),
    }
}

#[test]
fn empty_document_gives_empty_topology() {
    let topo = Topology::from_yaml_str("").expect("empty input is a valid, empty topology");
    assert!(topo.nodes.is_empty());
    assert!(topo.links.is_empty());
}

#[test]
fn null_sections_give_no_nodes_or_links() {
    let topo = Topology::from_yaml_str("routers:\nswitches:\nlinks:\n").expect("valid");
    assert!(topo.nodes.is_empty());
    assert!(topo.links.is_empty());
}

#[test]
fn empty_address_list_yields_no_addresses() {
    let yaml = "routers: { r1: { interfaces: { eth0: { ipv4: [] } } } }\n";
    let topo = Topology::from_yaml_str(yaml).expect("valid");
    match &topo.nodes[0] {
        Node::Router(r) => assert!(r.interfaces[0].addresses.is_empty()),
        Node::Switch(_) => panic!("expected a router"),
    }
}

#[test]
fn ipv6_addresses_parse() {
    let yaml = "routers: { r1: { interfaces: { eth0: { ipv6: ['2001:db8::1/96'] } } } }\n";
    let topo = Topology::from_yaml_str(yaml).expect("valid");
    match &topo.nodes[0] {
        Node::Router(r) => match r.interfaces[0].addresses[0] {
            IpCidr::V6(c) => {
                assert_eq!(c.addr, 0x2001_0db8_0000_0000_0000_0000_0000_0001u128);
                assert_eq!(c.prefix, 96);
            }
            IpCidr::V4(_) => panic!("expected an IPv6 network"),
        },
        Node::Switch(_) => panic!("expected a router"),
    }
}

#[test]
fn duplicate_interface_name_rejected() {
    // The document tree is built by hand: a mapping cannot carry the same
    // key twice once the tokenizer has deduplicated it.
    let iface = |name: &str| {
        (
            DocNode::Scalar(name.to_string()),
            DocNode::Mapping(vec![]),
        )
    };
    let router_cfg = DocNode::Mapping(vec![(
        DocNode::Scalar("interfaces".to_string()),
        DocNode::Mapping(vec![iface("eth0"), iface("eth0")]),
    )]);
    let doc = DocNode::Mapping(vec![(
        DocNode::Scalar("routers".to_string()),
        DocNode::Mapping(vec![(DocNode::Scalar("r1".to_string()), router_cfg)]),
    )]);
    match Topology::new().parse_topology_config(&doc) {
        Err(ConfigError::DuplicateNode { name }) => assert_eq!(name, "eth0"),
        other => panic!("expected a duplicate-node error, got {other:?}"),
    }
}

#[test]
fn nodes_are_held_in_ascending_name_order() {
    let yaml = "\
routers: { z9: {}, a1: {} }
switches: { m5: {} }
";
    let topo = Topology::from_yaml_str(yaml).expect("valid");
    let names: Vec<&str> = topo.nodes.iter().map(|n| n.name().as_str()).collect();
    assert_eq!(names, ["a1", "m5", "z9"]);

    // A shorter name precedes its extensions.
    let topo = Topology::from_yaml_str("routers: { r10: {}, r1: {}, r: {} }
").expect("valid");
    let names: Vec<&str> = topo.nodes.iter().map(|n| n.name().as_str()).collect();
    assert_eq!(names, ["r", "r1", "r10"]);
}

#[test]
fn startup_config_is_read() {
    let yaml = "routers: { r1: { startup-config: /etc/r1.conf } }\n";
    let topo = Topology::from_yaml_str(yaml).expect("valid");
    match &topo.nodes[0] {
        Node::Router(r) => assert_eq!(r.startup_config.as_deref(), Some("/etc/r1.conf")),
        Node::Switch(_) => panic!("expected a router"),
    }
}

#[test]
fn link_endpoints_format_and_conflicts() {
    let link = Link {
        src_device: "r1".to_string(),
        src_iface: "eth0".to_string(),
        dst_device: "sw1".to_string(),
        dst_iface: "p1".to_string(),
    };
    assert_eq!(link.src(), "r1:eth0");
    assert_eq!(link.dst(), "sw1:p1");

    let topo = Topology::from_yaml_str(SCENARIO_A).expect("valid topology");
    assert!(topo.link_exists(&topo.links[0].clone()));
    let reversed = Link {
        src_device: "sw1".to_string(),
        src_iface: "p1".to_string(),
        dst_device: "r1".to_string(),
        dst_iface: "eth0".to_string(),
    };
    assert!(topo.link_exists(&reversed));
    let unrelated = Link {
        src_device: "r1".to_string(),
        src_iface: "eth9".to_string(),
        dst_device: "sw1".to_string(),
        dst_iface: "p9".to_string(),
    };
    assert!(!topo.link_exists(&unrelated));
}

#[test]
fn contains_node_finds_every_declared_node() {
    let topo = Topology::from_yaml_str(SCENARIO_A).expect("valid topology");
    assert!(topo.contains_node(&"r1".to_string()));
    assert!(topo.contains_node(&"r2".to_string()));
    assert!(topo.contains_node(&"sw1".to_string()));
    assert!(!topo.contains_node(&"r3".to_string()));
}
