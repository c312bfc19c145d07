//! The nodes of a topology: routers, switches, their interfaces, and links.
//!
//! Each type has a mathematical view (`*V`) over character sequences and
//! plain values; every parsing function's contract equates its result with a
//! specification-level parse of the same document nodes.

use vstd::prelude::*;
use vstd::string::StringExecFns;

use crate::addr::ipv4_cidr_of;
use crate::addr::ipv6_cidr_of;
use crate::addr::parse_ipv4_cidr;
use crate::addr::parse_ipv6_cidr;
use crate::addr::IpCidr;
use crate::addr::Ipv4Cidr;
use crate::addr::Ipv6Cidr;
use crate::doc::spec_lookup;
use crate::doc::lookup;
use crate::doc::DocNode;
use crate::errors::ConfigError;
use crate::errors::ConfigErrorV;
use crate::util::res_view;

verus! {

/// A named interface with its ordered list of addresses.
#[derive(Debug, Clone)]
pub struct Interface {
    pub name: String,
    pub addresses: Vec<IpCidr>,
}

/// The mathematical value of an [`Interface`].
pub struct InterfaceV {
    pub name: Seq<char>,
    pub addresses: Seq<IpCidr>,
}

impl View for Interface {
    type V = InterfaceV;

    open spec fn view(&self) -> InterfaceV {
        InterfaceV { name: self.name@, addresses: self.addresses@ }
    }
}

/// A router: its namespace anchor path and holder pid are set at power-on.
#[derive(Debug, Clone)]
pub struct Router {
    pub name: String,
    pub file_path: Option<String>,
    pub interfaces: Vec<Interface>,
    pub pid: Option<i32>,
    pub startup_config: Option<String>,
}

/// The mathematical value of a [`Router`].
pub struct RouterV {
    pub name: Seq<char>,
    pub file_path: Option<Seq<char>>,
    pub interfaces: Seq<InterfaceV>,
    pub pid: Option<i32>,
    pub startup_config: Option<Seq<char>>,
}

impl View for Router {
    type V = RouterV;

    open spec fn view(&self) -> RouterV {
        RouterV {
            name: self.name@,
            file_path: match self.file_path {
                Some(p) => Some(p@),
                None => None,
            },
            interfaces: crate::util::view_seq(self.interfaces@),
            pid: self.pid,
            startup_config: match self.startup_config {
                Some(c) => Some(c@),
                None => None,
            },
        }
    }
}

/// A switch: realized as a bridge in the host namespace; `ifindex` is set at
/// power-on.
#[derive(Debug, Clone)]
pub struct Switch {
    pub name: String,
    pub ifindex: Option<u32>,
    pub interfaces: Vec<Interface>,
}

/// The mathematical value of a [`Switch`].
pub struct SwitchV {
    pub name: Seq<char>,
    pub ifindex: Option<u32>,
    pub interfaces: Seq<InterfaceV>,
}

impl View for Switch {
    type V = SwitchV;

    open spec fn view(&self) -> SwitchV {
        SwitchV {
            name: self.name@,
            ifindex: self.ifindex,
            interfaces: crate::util::view_seq(self.interfaces@),
        }
    }
}

/// A node of the topology graph.
#[derive(Debug, Clone)]
pub enum Node {
    Router(Router),
    Switch(Switch),
}

/// The mathematical value of a [`Node`].
pub enum NodeV {
    Router(RouterV),
    Switch(SwitchV),
}

impl View for Node {
    type V = NodeV;

    open spec fn view(&self) -> NodeV {
        match self {
            Node::Router(r) => NodeV::Router(r@),
            Node::Switch(s) => NodeV::Switch(s@),
        }
    }
}

impl NodeV {
    /// The node's name.
    pub open spec fn name(self) -> Seq<char> {
        match self {
            NodeV::Router(r) => r.name,
            NodeV::Switch(s) => s.name,
        }
    }
}

impl Node {
    /// The node's name.
    pub fn name(&self) -> (r: &String)
        ensures
            r@ == self@.name(),
    {
        match self {
            Node::Router(r) => &r.name,
            Node::Switch(s) => &s.name,
        }
    }
}

/// A link between two endpoints, each the pair of a device name and an
/// interface name on that device.
#[derive(Debug, Clone)]
pub struct Link {
    pub src_device: String,
    pub src_iface: String,
    pub dst_device: String,
    pub dst_iface: String,
}

/// The mathematical value of a [`Link`].
pub struct LinkV {
    pub src_device: Seq<char>,
    pub src_iface: Seq<char>,
    pub dst_device: Seq<char>,
    pub dst_iface: Seq<char>,
}

impl View for Link {
    type V = LinkV;

    open spec fn view(&self) -> LinkV {
        LinkV {
            src_device: self.src_device@,
            src_iface: self.src_iface@,
            dst_device: self.dst_device@,
            dst_iface: self.dst_iface@,
        }
    }
}

impl LinkV {
    /// The source endpoint as a `device:iface` character sequence.
    pub open spec fn spec_src(self) -> Seq<char> {
        self.src_device + ":"@ + self.src_iface
    }

    /// The destination endpoint as a `device:iface` character sequence.
    pub open spec fn spec_dst(self) -> Seq<char> {
        self.dst_device + ":"@ + self.dst_iface
    }

    /// The source endpoint as the pair of device and interface name.
    pub open spec fn src_endpoint(self) -> (Seq<char>, Seq<char>) {
        (self.src_device, self.src_iface)
    }

    /// The destination endpoint as the pair of device and interface name.
    pub open spec fn dst_endpoint(self) -> (Seq<char>, Seq<char>) {
        (self.dst_device, self.dst_iface)
    }
}

/// Whether two links describe the same unordered pair of endpoints.
pub open spec fn links_conflict(a: LinkV, b: LinkV) -> bool {
    ||| (a.src_endpoint() == b.src_endpoint() && a.dst_endpoint() == b.dst_endpoint())
    ||| (a.src_endpoint() == b.dst_endpoint() && a.dst_endpoint() == b.src_endpoint())
}

impl Link {
    /// The source endpoint, formatted as `device:iface`.
    pub fn src(&self) -> (r: String)
        ensures
            r@ == self@.spec_src(),
    {
        let mut s = self.src_device.clone();
        s.append(":");
        s.append(self.src_iface.as_str());
        s
    }

    /// The destination endpoint, formatted as `device:iface`.
    pub fn dst(&self) -> (r: String)
        ensures
            r@ == self@.spec_dst(),
    {
        let mut s = self.dst_device.clone();
        s.append(":");
        s.append(self.dst_iface.as_str());
        s
    }
}

/// The key under which an address family's list lives.
pub open spec fn family_name(v4: bool) -> Seq<char> {
    if v4 {
        "ipv4"@
    } else {
        "ipv6"@
    }
}

/// What one CIDR text parses to in the given family. A text whose prefix
/// length exceeds the family's bit width is never a valid network.
pub open spec fn spec_parse_addr(s: Seq<char>, v4: bool) -> Option<IpCidr> {
    if v4 {
        match ipv4_cidr_of(s) {
            Some(ap) => if ap.1 <= 32 {
                Some(IpCidr::V4(Ipv4Cidr { addr: ap.0, prefix: ap.1 }))
            } else {
                None
            },
            None => None,
        }
    } else {
        match ipv6_cidr_of(s) {
            Some(ap) => if ap.1 <= 128 {
                Some(IpCidr::V6(Ipv6Cidr { addr: ap.0, prefix: ap.1 }))
            } else {
                None
            },
            None => None,
        }
    }
}

/// Parse of an address list, element by element, onto the addresses already
/// accumulated: every element must be a string scalar that parses as a CIDR
/// of the family, and the first offending element decides the error.
pub open spec fn spec_parse_addrs_from(
    items: Seq<DocNode>,
    v4: bool,
    iface: Seq<char>,
    owner: Seq<char>,
    field: Seq<char>,
    acc: Seq<IpCidr>,
) -> Result<Seq<IpCidr>, ConfigErrorV>
    decreases items.len(),
{
    if items.len() == 0 {
        Ok(acc)
    } else {
        match items[0] {
            DocNode::Scalar(s) => match spec_parse_addr(s@, v4) {
                Some(c) => spec_parse_addrs_from(
                    items.drop_first(),
                    v4,
                    iface,
                    owner,
                    field,
                    acc.push(c),
                ),
                None => Err(
                    ConfigErrorV::InvalidAddress {
                        family: family_name(v4),
                        address: s@,
                        interface: iface,
                        source: owner,
                    },
                ),
            },
            _ => Err(ConfigErrorV::IncorrectType { field: field, expected: "string"@ }),
        }
    }
}

/// The family key as an owned string.
fn family_key(v4: bool) -> (r: String)
    ensures
        r@ == family_name(v4),
{
    if v4 {
        String::from_str("ipv4")
    } else {
        String::from_str("ipv6")
    }
}

/// Parses one address list of the given family onto `acc`.
fn parse_addrs_into(
    items: &Vec<DocNode>,
    v4: bool,
    iface: &String,
    owner: &String,
    field: &String,
    acc: &mut Vec<IpCidr>,
) -> (r: Result<(), ConfigError>)
    ensures
        match r {
            Ok(()) => spec_parse_addrs_from(items@, v4, iface@, owner@, field@, old(acc)@)
                == Ok::<_, ConfigErrorV>(final(acc)@),
            Err(e) => spec_parse_addrs_from(items@, v4, iface@, owner@, field@, old(acc)@)
                == Err::<Seq<IpCidr>, _>(e@),
        },
{
    let n = items.len();
    let mut i: usize = 0;
    proof {
        assert(items@.skip(0) =~= items@);
    }
    while i < n
        invariant
            n == items@.len(),
            i <= n,
            spec_parse_addrs_from(items@, v4, iface@, owner@, field@, old(acc)@)
                == spec_parse_addrs_from(items@.skip(i as int), v4, iface@, owner@, field@, acc@),
        decreases n - i,
    {
        proof {
            assert(items@.skip(i as int)[0] == items@[i as int]);
            assert(items@.skip(i as int).drop_first() =~= items@.skip(i + 1));
        }
        match &items[i] {
            DocNode::Scalar(s) => {
                let parsed: Option<IpCidr> = if v4 {
                    match parse_ipv4_cidr(s) {
                        Some(c) => Some(IpCidr::V4(c)),
                        None => None,
                    }
                } else {
                    match parse_ipv6_cidr(s) {
                        Some(c) => Some(IpCidr::V6(c)),
                        None => None,
                    }
                };
                match parsed {
                    Some(c) => {
                        acc.push(c);
                    },
                    None => {
                        return Err(
                            ConfigError::InvalidAddress {
                                family: family_key(v4),
                                address: s.clone(),
                                interface: iface.clone(),
                                source: owner.clone(),
                            },
                        );
                    },
                }
            },
            _ => {
                return Err(
                    ConfigError::IncorrectType {
                        field: field.clone(),
                        expected: String::from_str("string"),
                    },
                );
            },
        }
        i += 1;
    }
    proof {
        assert(items@.skip(n as int) =~= Seq::<DocNode>::empty());
    }
    Ok(())
}

/// A field path extended by one segment, as `path->name`.
pub fn child_path(path: &String, name: &String) -> (r: String)
    ensures
        r@ == path@ + "->"@ + name@,
{
    let mut s = path.clone();
    s.append("->");
    s.append(name.as_str());
    s
}

/// Parse of one family's address section onto `acc`: an absent or null list
/// contributes nothing, a sequence is parsed element by element, anything
/// else has the wrong kind.
pub open spec fn spec_addr_section_from(
    entries: Seq<(DocNode, DocNode)>,
    v4: bool,
    iface: Seq<char>,
    owner: Seq<char>,
    path: Seq<char>,
    acc: Seq<IpCidr>,
) -> Result<Seq<IpCidr>, ConfigErrorV> {
    match spec_lookup(entries, family_name(v4)) {
        None => Ok(acc),
        Some(node) => match node {
            DocNode::Null => Ok(acc),
            DocNode::Sequence(items) => spec_parse_addrs_from(
                items@,
                v4,
                iface,
                owner,
                path + "->"@ + family_name(v4),
                acc,
            ),
            _ => Err(
                ConfigErrorV::IncorrectType {
                    field: path + "->"@ + family_name(v4),
                    expected: "sequence"@,
                },
            ),
        },
    }
}

/// Parse of one interface's configuration mapping: the IPv4 list first, then
/// the IPv6 list, the addresses in declaration order.
pub open spec fn spec_parse_interface(
    owner: Seq<char>,
    name: Seq<char>,
    entries: Seq<(DocNode, DocNode)>,
    path: Seq<char>,
) -> Result<InterfaceV, ConfigErrorV> {
    match spec_addr_section_from(entries, true, name, owner, path, Seq::empty()) {
        Err(e) => Err(e),
        Ok(a4) => match spec_addr_section_from(entries, false, name, owner, path, a4) {
            Err(e) => Err(e),
            Ok(addrs) => Ok(InterfaceV { name: name, addresses: addrs }),
        },
    }
}

/// Parses one family's address section onto `acc`.
fn addr_section_into(
    entries: &Vec<(DocNode, DocNode)>,
    v4: bool,
    iface: &String,
    owner: &String,
    path: &String,
    acc: &mut Vec<IpCidr>,
) -> (r: Result<(), ConfigError>)
    ensures
        match r {
            Ok(()) => spec_addr_section_from(entries@, v4, iface@, owner@, path@, old(acc)@)
                == Ok::<_, ConfigErrorV>(final(acc)@),
            Err(e) => spec_addr_section_from(entries@, v4, iface@, owner@, path@, old(acc)@)
                == Err::<Seq<IpCidr>, _>(e@),
        },
{
    let key = family_key(v4);
    match lookup(entries, &key) {
        None => Ok(()),
        Some(node) => match node {
            DocNode::Null => Ok(()),
            DocNode::Sequence(items) => {
                let field = child_path(path, &key);
                parse_addrs_into(items, v4, iface, owner, &field, acc)
            },
            _ => Err(
                ConfigError::IncorrectType {
                    field: child_path(path, &key),
                    expected: String::from_str("sequence"),
                },
            ),
        },
    }
}

impl Interface {
    /// Parses one interface's configuration mapping, whose optional `ipv4`
    /// and `ipv6` keys each hold a list of CIDR strings (possibly empty or
    /// null). `owner` is the owning node's name and `path` the field path to
    /// this interface.
    pub fn from_yaml_config(
        owner: &String,
        name: &String,
        config: &Vec<(DocNode, DocNode)>,
        path: &String,
    ) -> (r: Result<Interface, ConfigError>)
        ensures
            res_view(r) == spec_parse_interface(owner@, name@, config@, path@),
    {
        let mut addrs: Vec<IpCidr> = Vec::new();
        if let Err(e) = addr_section_into(config, true, name, owner, path, &mut addrs) {
            return Err(e);
        }
        if let Err(e) = addr_section_into(config, false, name, owner, path, &mut addrs) {
            return Err(e);
        }
        Ok(Interface { name: name.clone(), addresses: addrs })
    }
}

/// Whether an interface of this name is already present.
pub open spec fn ifaces_contain(s: Seq<InterfaceV>, name: Seq<char>) -> bool {
    exists|j: int| 0 <= j < s.len() && s[j].name == name
}

/// Whether `v` holds an interface named `name`.
fn contains_interface(v: &Vec<Interface>, name: &String) -> (r: bool)
    ensures
        r == ifaces_contain(crate::util::view_seq(v@), name@),
{
    let n = v.len();
    let mut i: usize = 0;
    while i < n
        invariant
            n == v@.len(),
            i <= n,
            forall|j: int| 0 <= j < i ==> v@[j]@.name != name@,
        decreases n - i,
    {
        if v[i].name == *name {
            proof {
                assert(crate::util::view_seq(v@)[i as int] == v@[i as int]@);
            }
            return true;
        }
        i += 1;
    }
    proof {
        assert forall|j: int| 0 <= j < v@.len() implies crate::util::view_seq(v@)[j].name
            != name@ by {
            assert(crate::util::view_seq(v@)[j] == v@[j]@);
        }
    }
    false
}

/// Parse of a node's `interfaces` mapping onto `acc`: every key a string
/// scalar, every value a mapping (or null for an interface with no
/// addresses), and no interface name repeated within the node.
pub open spec fn spec_parse_interfaces_from(
    owner: Seq<char>,
    entries: Seq<(DocNode, DocNode)>,
    path: Seq<char>,
    acc: Seq<InterfaceV>,
) -> Result<Seq<InterfaceV>, ConfigErrorV>
    decreases entries.len(),
{
    if entries.len() == 0 {
        Ok(acc)
    } else {
        match entries[0].0 {
            DocNode::Scalar(iname) => if ifaces_contain(acc, iname@) {
                Err(ConfigErrorV::DuplicateNode { name: iname@ })
            } else {
                let sub = match entries[0].1 {
                    DocNode::Mapping(config) => spec_parse_interface(
                        owner,
                        iname@,
                        config@,
                        path + "->"@ + iname@,
                    ),
                    DocNode::Null => Ok(InterfaceV { name: iname@, addresses: Seq::empty() }),
                    _ => Err(
                        ConfigErrorV::IncorrectType {
                            field: path + "->"@ + iname@,
                            expected: "mapping"@,
                        },
                    ),
                };
                match sub {
                    Err(e) => Err(e),
                    Ok(ifv) => spec_parse_interfaces_from(
                        owner,
                        entries.drop_first(),
                        path,
                        acc.push(ifv),
                    ),
                }
            },
            _ => Err(ConfigErrorV::IncorrectType { field: path, expected: "string"@ }),
        }
    }
}

/// Parse of a node's whole `interfaces` mapping.
pub open spec fn spec_parse_interfaces(
    owner: Seq<char>,
    entries: Seq<(DocNode, DocNode)>,
    path: Seq<char>,
) -> Result<Seq<InterfaceV>, ConfigErrorV> {
    spec_parse_interfaces_from(owner, entries, path, Seq::empty())
}

/// Parses a node's `interfaces` mapping.
pub(crate) fn parse_interfaces(
    owner: &String,
    entries: &Vec<(DocNode, DocNode)>,
    path: &String,
) -> (r: Result<Vec<Interface>, ConfigError>)
    ensures
        match r {
            Ok(v) => spec_parse_interfaces(owner@, entries@, path@) == Ok::<_, ConfigErrorV>(
                crate::util::view_seq(v@),
            ),
            Err(e) => spec_parse_interfaces(owner@, entries@, path@) == Err::<Seq<InterfaceV>, _>(
                e@,
            ),
        },
{
    let n = entries.len();
    let mut acc: Vec<Interface> = Vec::new();
    let mut i: usize = 0;
    proof {
        assert(entries@.skip(0) =~= entries@);
        assert(crate::util::view_seq(acc@) =~= Seq::<InterfaceV>::empty());
    }
    while i < n
        invariant
            n == entries@.len(),
            i <= n,
            spec_parse_interfaces(owner@, entries@, path@) == spec_parse_interfaces_from(
                owner@,
                entries@.skip(i as int),
                path@,
                crate::util::view_seq(acc@),
            ),
        decreases n - i,
    {
        proof {
            assert(entries@.skip(i as int)[0] == entries@[i as int]);
            assert(entries@.skip(i as int).drop_first() =~= entries@.skip(i + 1));
        }
        match &entries[i].0 {
            DocNode::Scalar(iname) => {
                if contains_interface(&acc, iname) {
                    return Err(ConfigError::DuplicateNode { name: iname.clone() });
                }
                let iface: Interface = match &entries[i].1 {
                    DocNode::Mapping(config) => {
                        let child = child_path(path, iname);
                        match Interface::from_yaml_config(owner, iname, config, &child) {
                            Ok(ifv) => ifv,
                            Err(e) => {
                                return Err(e);
                            },
                        }
                    },
                    DocNode::Null => Interface { name: iname.clone(), addresses: Vec::new() },
                    _ => {
                        return Err(
                            ConfigError::IncorrectType {
                                field: child_path(path, iname),
                                expected: String::from_str("mapping"),
                            },
                        );
                    },
                };
                proof {
                    let ghost prev = crate::util::view_seq(acc@);
                    assert(crate::util::view_seq(acc@.push(iface)) =~= prev.push(iface@));
                }
                acc.push(iface);
            },
            _ => {
                return Err(
                    ConfigError::IncorrectType {
                        field: path.clone(),
                        expected: String::from_str("string"),
                    },
                );
            },
        }
        i += 1;
    }
    proof {
        assert(entries@.skip(n as int) =~= Seq::<(DocNode, DocNode)>::empty());
    }
    Ok(acc)
}

/// Parse of a node's `interfaces` section: an absent or null section means
/// no interfaces.
pub open spec fn spec_interfaces_section(
    owner: Seq<char>,
    entries: Seq<(DocNode, DocNode)>,
    path: Seq<char>,
) -> Result<Seq<InterfaceV>, ConfigErrorV> {
    match spec_lookup(entries, "interfaces"@) {
        None => Ok(Seq::empty()),
        Some(node) => match node {
            DocNode::Null => Ok(Seq::empty()),
            DocNode::Mapping(ifentries) => spec_parse_interfaces(
                owner,
                ifentries@,
                path + "->"@ + "interfaces"@,
            ),
            _ => Err(
                ConfigErrorV::IncorrectType {
                    field: path + "->"@ + "interfaces"@,
                    expected: "mapping"@,
                },
            ),
        },
    }
}

/// Parses a node's `interfaces` section.
fn interfaces_section(owner: &String, entries: &Vec<(DocNode, DocNode)>, path: &String) -> (r:
    Result<Vec<Interface>, ConfigError>)
    ensures
        match r {
            Ok(v) => spec_interfaces_section(owner@, entries@, path@) == Ok::<_, ConfigErrorV>(
                crate::util::view_seq(v@),
            ),
            Err(e) => spec_interfaces_section(owner@, entries@, path@) == Err::<
                Seq<InterfaceV>,
                _,
            >(e@),
        },
{
    let key = String::from_str("interfaces");
    match lookup(entries, &key) {
        None => {
            proof {
                assert(crate::util::view_seq(Seq::<Interface>::empty()) =~= Seq::<
                    InterfaceV,
                >::empty());
            }
            Ok(Vec::new())
        },
        Some(node) => match node {
            DocNode::Null => {
                proof {
                    assert(crate::util::view_seq(Seq::<Interface>::empty()) =~= Seq::<
                        InterfaceV,
                    >::empty());
                }
                Ok(Vec::new())
            },
            DocNode::Mapping(ifentries) => {
                let child = child_path(path, &key);
                parse_interfaces(owner, ifentries, &child)
            },
            _ => Err(
                ConfigError::IncorrectType {
                    field: child_path(path, &key),
                    expected: String::from_str("mapping"),
                },
            ),
        },
    }
}

/// Parse of one router's configuration mapping: its interfaces, then its
/// optional startup configuration path.
pub open spec fn spec_parse_router(
    name: Seq<char>,
    entries: Seq<(DocNode, DocNode)>,
    path: Seq<char>,
) -> Result<RouterV, ConfigErrorV> {
    match spec_interfaces_section(name, entries, path) {
        Err(e) => Err(e),
        Ok(ifs) => match spec_lookup(entries, "startup-config"@) {
            None => Ok(
                RouterV {
                    name: name,
                    file_path: None,
                    interfaces: ifs,
                    pid: None,
                    startup_config: None,
                },
            ),
            Some(node) => match node {
                DocNode::Scalar(s) => Ok(
                    RouterV {
                        name: name,
                        file_path: None,
                        interfaces: ifs,
                        pid: None,
                        startup_config: Some(s@),
                    },
                ),
                _ => Err(
                    ConfigErrorV::IncorrectType {
                        field: path + "->"@ + "startup-config"@,
                        expected: "string"@,
                    },
                ),
            },
        },
    }
}

/// Parse of one switch's configuration mapping: only its interfaces.
pub open spec fn spec_parse_switch(
    name: Seq<char>,
    entries: Seq<(DocNode, DocNode)>,
    path: Seq<char>,
) -> Result<SwitchV, ConfigErrorV> {
    match spec_interfaces_section(name, entries, path) {
        Err(e) => Err(e),
        Ok(ifs) => Ok(SwitchV { name: name, ifindex: None, interfaces: ifs }),
    }
}

impl Router {
    /// A router with the given name and nothing else set.
    pub fn new(name: &str) -> (r: Router)
        ensures
            r@ == (RouterV {
                name: name@,
                file_path: None,
                interfaces: Seq::empty(),
                pid: None,
                startup_config: None,
            }),
    {
        let r = Router {
            name: name.to_owned(),
            file_path: None,
            interfaces: Vec::new(),
            pid: None,
            startup_config: None,
        };
        proof {
            assert(crate::util::view_seq(r.interfaces@) =~= Seq::<InterfaceV>::empty());
        }
        r
    }

    /// Parses one router's configuration mapping; `path` is the field path
    /// to this router.
    pub fn from_yaml_config(name: &String, config: &Vec<(DocNode, DocNode)>, path: &String) -> (r:
        Result<Router, ConfigError>)
        ensures
            res_view(r) == spec_parse_router(name@, config@, path@),
    {
        let interfaces = match interfaces_section(name, config, path) {
            Ok(v) => v,
            Err(e) => {
                return Err(e);
            },
        };
        let key = String::from_str("startup-config");
        let startup_config: Option<String> = match lookup(config, &key) {
            None => None,
            Some(node) => match node {
                DocNode::Scalar(s) => Some(s.clone()),
                _ => {
                    return Err(
                        ConfigError::IncorrectType {
                            field: child_path(path, &key),
                            expected: String::from_str("string"),
                        },
                    );
                },
            },
        };
        Ok(
            Router {
                name: name.clone(),
                file_path: None,
                interfaces,
                pid: None,
                startup_config,
            },
        )
    }
}

/// Every address of the interface fits its family's prefix bound.
pub open spec fn iface_wf(i: InterfaceV) -> bool {
    forall|k: int| 0 <= k < i.addresses.len() ==> i.addresses[k].wf()
}

/// The interfaces of a node.
pub open spec fn node_interfaces(n: NodeV) -> Seq<InterfaceV> {
    match n {
        NodeV::Router(r) => r.interfaces,
        NodeV::Switch(s) => s.interfaces,
    }
}

/// The node's interface names are unique within it and all its addresses fit
/// their families.
pub open spec fn node_wf(n: NodeV) -> bool {
    let ifs = node_interfaces(n);
    &&& forall|i: int, j: int| 0 <= i < j < ifs.len() ==> ifs[i].name != ifs[j].name
    &&& forall|i: int| 0 <= i < ifs.len() ==> iface_wf(ifs[i])
}

/// An accepted address list holds only addresses that fit their family.
pub proof fn lemma_parse_addrs_wf(
    items: Seq<DocNode>,
    v4: bool,
    iface: Seq<char>,
    owner: Seq<char>,
    field: Seq<char>,
    acc: Seq<IpCidr>,
)
    requires
        forall|k: int| 0 <= k < acc.len() ==> acc[k].wf(),
    ensures
        spec_parse_addrs_from(items, v4, iface, owner, field, acc) matches Ok(res) ==> forall|
            k: int,
        | 0 <= k < res.len() ==> res[k].wf(),
    decreases items.len(),
{
    if items.len() > 0 {
        match items[0] {
            DocNode::Scalar(s) => match spec_parse_addr(s@, v4) {
                Some(c) => {
                    lemma_parse_addrs_wf(items.drop_first(), v4, iface, owner, field, acc.push(c));
                },
                None => {},
            },
            _ => {},
        }
    }
}

/// An accepted interface is well formed and carries the declared name.
pub proof fn lemma_parse_interface_wf(
    owner: Seq<char>,
    name: Seq<char>,
    entries: Seq<(DocNode, DocNode)>,
    path: Seq<char>,
)
    ensures
        spec_parse_interface(owner, name, entries, path) matches Ok(ifv) ==> iface_wf(ifv)
            && ifv.name == name,
{
    match spec_lookup(entries, family_name(true)) {
        None => {},
        Some(node) => match node {
            DocNode::Sequence(items) => {
                lemma_parse_addrs_wf(
                    items@,
                    true,
                    name,
                    owner,
                    path + "->"@ + family_name(true),
                    Seq::empty(),
                );
            },
            _ => {},
        },
    }
    match spec_addr_section_from(entries, true, name, owner, path, Seq::empty()) {
        Err(_) => {},
        Ok(a4) => {
            match spec_lookup(entries, family_name(false)) {
                None => {},
                Some(node) => match node {
                    DocNode::Sequence(items) => {
                        lemma_parse_addrs_wf(
                            items@,
                            false,
                            name,
                            owner,
                            path + "->"@ + family_name(false),
                            a4,
                        );
                    },
                    _ => {},
                },
            }
        },
    }
}

/// An accepted interface list has unique names and well-formed interfaces.
pub proof fn lemma_parse_interfaces_wf(
    owner: Seq<char>,
    entries: Seq<(DocNode, DocNode)>,
    path: Seq<char>,
    acc: Seq<InterfaceV>,
)
    requires
        forall|i: int, j: int| 0 <= i < j < acc.len() ==> acc[i].name != acc[j].name,
        forall|i: int| 0 <= i < acc.len() ==> iface_wf(acc[i]),
    ensures
        spec_parse_interfaces_from(owner, entries, path, acc) matches Ok(res) ==> (forall|
            i: int,
            j: int,
        | 0 <= i < j < res.len() ==> res[i].name != res[j].name) && (forall|i: int|
            0 <= i < res.len() ==> iface_wf(res[i])),
    decreases entries.len(),
{
    if entries.len() > 0 {
        match entries[0].0 {
            DocNode::Scalar(iname) => {
                if !ifaces_contain(acc, iname@) {
                    let sub = match entries[0].1 {
                        DocNode::Mapping(config) => spec_parse_interface(
                            owner,
                            iname@,
                            config@,
                            path + "->"@ + iname@,
                        ),
                        DocNode::Null => Ok(InterfaceV { name: iname@, addresses: Seq::empty() }),
                        _ => Err(
                            ConfigErrorV::IncorrectType {
                                field: path + "->"@ + iname@,
                                expected: "mapping"@,
                            },
                        ),
                    };
                    match sub {
                        Err(_) => {},
                        Ok(ifv) => {
                            match entries[0].1 {
                                DocNode::Mapping(config) => {
                                    lemma_parse_interface_wf(
                                        owner,
                                        iname@,
                                        config@,
                                        path + "->"@ + iname@,
                                    );
                                },
                                _ => {},
                            }
                            assert(ifv.name == iname@);
                            assert(forall|i: int|
                                0 <= i < acc.len() ==> acc[i] == #[trigger] acc.push(ifv)[i]);
                            lemma_parse_interfaces_wf(
                                owner,
                                entries.drop_first(),
                                path,
                                acc.push(ifv),
                            );
                        },
                    }
                }
            },
            _ => {},
        }
    }
}

/// An accepted router is well formed and carries the declared name.
pub proof fn lemma_parse_router_wf(
    name: Seq<char>,
    entries: Seq<(DocNode, DocNode)>,
    path: Seq<char>,
)
    ensures
        spec_parse_router(name, entries, path) matches Ok(r) ==> node_wf(NodeV::Router(r))
            && r.name == name,
{
    lemma_interfaces_section_wf(name, entries, path);
}

/// An accepted switch is well formed and carries the declared name.
pub proof fn lemma_parse_switch_wf(
    name: Seq<char>,
    entries: Seq<(DocNode, DocNode)>,
    path: Seq<char>,
)
    ensures
        spec_parse_switch(name, entries, path) matches Ok(s) ==> node_wf(NodeV::Switch(s))
            && s.name == name,
{
    lemma_interfaces_section_wf(name, entries, path);
}

/// An accepted `interfaces` section has unique names and well-formed
/// interfaces.
pub proof fn lemma_interfaces_section_wf(
    owner: Seq<char>,
    entries: Seq<(DocNode, DocNode)>,
    path: Seq<char>,
)
    ensures
        spec_interfaces_section(owner, entries, path) matches Ok(ifs) ==> (forall|i: int, j: int|
            0 <= i < j < ifs.len() ==> ifs[i].name != ifs[j].name) && (forall|i: int|
            0 <= i < ifs.len() ==> iface_wf(ifs[i])),
{
    match spec_lookup(entries, "interfaces"@) {
        None => {},
        Some(node) => match node {
            DocNode::Mapping(ifentries) => {
                lemma_parse_interfaces_wf(
                    owner,
                    ifentries@,
                    path + "->"@ + "interfaces"@,
                    Seq::empty(),
                );
            },
            _ => {},
        },
    }
}

impl Switch {
    /// A switch with the given name and nothing else set.
    pub fn new(name: &str) -> (r: Switch)
        ensures
            r@ == (SwitchV { name: name@, ifindex: None, interfaces: Seq::empty() }),
    {
        let s = Switch { name: name.to_owned(), ifindex: None, interfaces: Vec::new() };
        proof {
            assert(crate::util::view_seq(s.interfaces@) =~= Seq::<InterfaceV>::empty());
        }
        s
    }

    /// Parses one switch's configuration mapping; `path` is the field path
    /// to this switch.
    pub fn from_yaml_config(name: &String, config: &Vec<(DocNode, DocNode)>, path: &String) -> (r:
        Result<Switch, ConfigError>)
        ensures
            res_view(r) == spec_parse_switch(name@, config@, path@),
    {
        let interfaces = match interfaces_section(name, config, path) {
            Ok(v) => v,
            Err(e) => {
                return Err(e);
            },
        };
        Ok(Switch { name: name.clone(), ifindex: None, interfaces })
    }
}

} // verus!
