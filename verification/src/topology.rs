//! The topology graph: nodes and links, their invariants, and the parse of
//! whole documents into a validated graph.
//!
//! Parsing is validating: a document is rejected on the first violation of
//! the graph invariants (unique node names, links between existing nodes, no
//! repeated undirected endpoint pair, unique interface names per node, valid
//! CIDR addresses), and the contracts equate every accepting run with the
//! specification-level parse.

use vstd::prelude::*;

use crate::devices::spec_parse_router;
use crate::devices::spec_parse_switch;
use crate::devices::links_conflict;
use crate::devices::Link;
use crate::devices::LinkV;
use crate::devices::Node;
use crate::devices::NodeV;
use crate::devices::Router;
use crate::devices::RouterV;
use crate::devices::Switch;
use crate::devices::SwitchV;
use crate::devices::child_path;
use crate::doc::lookup;
use crate::doc::spec_lookup;
use crate::doc::DocNode;
use crate::errors::ConfigError;
use crate::errors::ConfigErrorV;
use crate::errors::Error;
use crate::errors::ErrorV;
use crate::util::res_view;
use crate::util::view_seq;
use crate::yaml::load_yaml_documents;
use crate::yaml::yaml_documents_of;

verus! {

/// A topology graph: the nodes in canonical (ascending name) order and the
/// links between them in declaration order.
#[derive(Debug)]
pub struct Topology {
    pub nodes: Vec<Node>,
    pub links: Vec<Link>,
}

/// The mathematical value of a [`Topology`].
pub struct TopologyV {
    pub nodes: Seq<NodeV>,
    pub links: Seq<LinkV>,
}

impl View for Topology {
    type V = TopologyV;

    open spec fn view(&self) -> TopologyV {
        TopologyV { nodes: view_seq(self.nodes@), links: view_seq(self.links@) }
    }
}

/// Whether some node carries this name.
pub open spec fn has_node(nodes: Seq<NodeV>, name: Seq<char>) -> bool {
    exists|i: int| 0 <= i < nodes.len() && nodes[i].name() == name
}

/// Whether some existing link describes the same unordered endpoint pair.
pub open spec fn has_conflict(links: Seq<LinkV>, l: LinkV) -> bool {
    exists|i: int| 0 <= i < links.len() && links_conflict(links[i], l)
}

/// The empty topology.
pub open spec fn empty_topology() -> TopologyV {
    TopologyV { nodes: Seq::empty(), links: Seq::empty() }
}

/// The field a link entry must carry under this key: a string scalar.
pub open spec fn spec_link_field(entries: Seq<(DocNode, DocNode)>, key: Seq<char>) -> Result<
    Seq<char>,
    ConfigErrorV,
> {
    match spec_lookup(entries, key) {
        None => Err(ConfigErrorV::MissingField { field: "links"@ + "->"@ + key }),
        Some(node) => match node {
            DocNode::Scalar(s) => Ok(s@),
            _ => Err(
                ConfigErrorV::IncorrectType { field: "links"@ + "->"@ + key, expected: "string"@ },
            ),
        },
    }
}

/// Parse of one link entry: all four endpoint fields are required strings.
pub open spec fn spec_parse_link(entries: Seq<(DocNode, DocNode)>) -> Result<
    LinkV,
    ConfigErrorV,
> {
    match spec_link_field(entries, "src-device"@) {
        Err(e) => Err(e),
        Ok(src_device) => match spec_link_field(entries, "src-iface"@) {
            Err(e) => Err(e),
            Ok(src_iface) => match spec_link_field(entries, "dst-device"@) {
                Err(e) => Err(e),
                Ok(dst_device) => match spec_link_field(entries, "dst-iface"@) {
                    Err(e) => Err(e),
                    Ok(dst_iface) => Ok(LinkV { src_device, src_iface, dst_device, dst_iface }),
                },
            },
        },
    }
}

/// Parse of the `links` sequence onto `acc`: every element a mapping.
pub open spec fn spec_parse_links_from(items: Seq<DocNode>, acc: Seq<LinkV>) -> Result<
    Seq<LinkV>,
    ConfigErrorV,
>
    decreases items.len(),
{
    if items.len() == 0 {
        Ok(acc)
    } else {
        match items[0] {
            DocNode::Mapping(entries) => match spec_parse_link(entries@) {
                Err(e) => Err(e),
                Ok(l) => spec_parse_links_from(items.drop_first(), acc.push(l)),
            },
            _ => Err(ConfigErrorV::IncorrectType { field: "links"@, expected: "mapping"@ }),
        }
    }
}

/// Parse of the whole `links` section: a sequence, or null for none.
pub open spec fn spec_parse_links(node: DocNode) -> Result<Seq<LinkV>, ConfigErrorV> {
    match node {
        DocNode::Null => Ok(Seq::empty()),
        DocNode::Sequence(items) => spec_parse_links_from(items@, Seq::empty()),
        _ => Err(ConfigErrorV::IncorrectType { field: "links"@, expected: "sequence"@ }),
    }
}

/// Parse of the `routers` mapping onto `acc`: each key a router name, each
/// value that router's configuration mapping (or null for a bare router).
pub open spec fn spec_parse_routers_from(entries: Seq<(DocNode, DocNode)>, acc: Seq<RouterV>) -> Result<
    Seq<RouterV>,
    ConfigErrorV,
>
    decreases entries.len(),
{
    if entries.len() == 0 {
        Ok(acc)
    } else {
        match entries[0].0 {
            DocNode::Scalar(name) => {
                let sub = match entries[0].1 {
                    DocNode::Mapping(cfg) => spec_parse_router(
                        name@,
                        cfg@,
                        "routers"@ + "->"@ + name@,
                    ),
                    DocNode::Null => spec_parse_router(
                        name@,
                        Seq::empty(),
                        "routers"@ + "->"@ + name@,
                    ),
                    _ => Err(
                        ConfigErrorV::IncorrectType {
                            field: "routers"@ + "->"@ + name@,
                            expected: "mapping"@,
                        },
                    ),
                };
                match sub {
                    Err(e) => Err(e),
                    Ok(r) => spec_parse_routers_from(entries.drop_first(), acc.push(r)),
                }
            },
            _ => Err(ConfigErrorV::IncorrectType { field: "routers"@, expected: "string"@ }),
        }
    }
}

/// Parse of the whole `routers` section.
pub open spec fn spec_parse_routers(node: DocNode) -> Result<Seq<RouterV>, ConfigErrorV> {
    match node {
        DocNode::Null => Ok(Seq::empty()),
        DocNode::Mapping(entries) => spec_parse_routers_from(entries@, Seq::empty()),
        _ => Err(ConfigErrorV::IncorrectType { field: "routers"@, expected: "mapping"@ }),
    }
}

/// Parse of the `switches` mapping onto `acc`.
pub open spec fn spec_parse_switches_from(entries: Seq<(DocNode, DocNode)>, acc: Seq<SwitchV>) -> Result<
    Seq<SwitchV>,
    ConfigErrorV,
>
    decreases entries.len(),
{
    if entries.len() == 0 {
        Ok(acc)
    } else {
        match entries[0].0 {
            DocNode::Scalar(name) => {
                let sub = match entries[0].1 {
                    DocNode::Mapping(cfg) => spec_parse_switch(
                        name@,
                        cfg@,
                        "switches"@ + "->"@ + name@,
                    ),
                    DocNode::Null => spec_parse_switch(
                        name@,
                        Seq::empty(),
                        "switches"@ + "->"@ + name@,
                    ),
                    _ => Err(
                        ConfigErrorV::IncorrectType {
                            field: "switches"@ + "->"@ + name@,
                            expected: "mapping"@,
                        },
                    ),
                };
                match sub {
                    Err(e) => Err(e),
                    Ok(s) => spec_parse_switches_from(entries.drop_first(), acc.push(s)),
                }
            },
            _ => Err(ConfigErrorV::IncorrectType { field: "switches"@, expected: "string"@ }),
        }
    }
}

/// Parse of the whole `switches` section.
pub open spec fn spec_parse_switches(node: DocNode) -> Result<Seq<SwitchV>, ConfigErrorV> {
    match node {
        DocNode::Null => Ok(Seq::empty()),
        DocNode::Mapping(entries) => spec_parse_switches_from(entries@, Seq::empty()),
        _ => Err(ConfigErrorV::IncorrectType { field: "switches"@, expected: "mapping"@ }),
    }
}

/// The nodes in canonical order: ascending by name.
pub open spec fn nodes_sorted(nodes: Seq<NodeV>) -> bool {
    forall|i: int, j: int|
        0 <= i < j < nodes.len() ==> crate::order::str_le(nodes[i].name(), nodes[j].name())
}

/// A node placed at its canonical position: before the first node whose name
/// is not below its own.
pub open spec fn insert_sorted(nodes: Seq<NodeV>, n: NodeV) -> Seq<NodeV>
    decreases nodes.len(),
{
    if nodes.len() == 0 {
        seq![n]
    } else if crate::order::str_le(n.name(), nodes[0].name()) {
        seq![n] + nodes
    } else {
        seq![nodes[0]] + insert_sorted(nodes.drop_first(), n)
    }
}

/// Insertion of parsed routers, one at a time, each at its canonical
/// position: a name already present in the graph is a duplicate node.
pub open spec fn spec_add_routers(t: TopologyV, rs: Seq<RouterV>) -> Result<
    TopologyV,
    ConfigErrorV,
>
    decreases rs.len(),
{
    if rs.len() == 0 {
        Ok(t)
    } else if has_node(t.nodes, rs[0].name) {
        Err(ConfigErrorV::DuplicateNode { name: rs[0].name })
    } else {
        spec_add_routers(
            TopologyV { nodes: insert_sorted(t.nodes, NodeV::Router(rs[0])), links: t.links },
            rs.drop_first(),
        )
    }
}

/// Insertion of parsed switches, one at a time, each at its canonical
/// position.
pub open spec fn spec_add_switches(t: TopologyV, ss: Seq<SwitchV>) -> Result<
    TopologyV,
    ConfigErrorV,
>
    decreases ss.len(),
{
    if ss.len() == 0 {
        Ok(t)
    } else if has_node(t.nodes, ss[0].name) {
        Err(ConfigErrorV::DuplicateNode { name: ss[0].name })
    } else {
        spec_add_switches(
            TopologyV { nodes: insert_sorted(t.nodes, NodeV::Switch(ss[0])), links: t.links },
            ss.drop_first(),
        )
    }
}

/// Insertion of parsed links, one at a time: both endpoints must name
/// existing nodes, and no unordered endpoint pair may repeat.
pub open spec fn spec_add_links(t: TopologyV, ls: Seq<LinkV>) -> Result<TopologyV, ConfigErrorV>
    decreases ls.len(),
{
    if ls.len() == 0 {
        Ok(t)
    } else if !has_node(t.nodes, ls[0].src_device) {
        Err(ConfigErrorV::UnknownNode { name: ls[0].src_device })
    } else if !has_node(t.nodes, ls[0].dst_device) {
        Err(ConfigErrorV::UnknownNode { name: ls[0].dst_device })
    } else if has_conflict(t.links, ls[0]) {
        Err(ConfigErrorV::DuplicateLink { src: ls[0].spec_src(), dst: ls[0].spec_dst() })
    } else {
        spec_add_links(
            TopologyV { nodes: t.nodes, links: t.links.push(ls[0]) },
            ls.drop_first(),
        )
    }
}

/// `insert_sorted` inserts exactly at the first position whose name is not
/// below the new node's.
proof fn lemma_insert_sorted_at(nodes: Seq<NodeV>, n: NodeV, idx: int)
    requires
        0 <= idx <= nodes.len(),
        forall|k: int| 0 <= k < idx ==> !crate::order::str_le(n.name(), #[trigger] nodes[k].name()),
        idx < nodes.len() ==> crate::order::str_le(n.name(), nodes[idx].name()),
    ensures
        insert_sorted(nodes, n) == nodes.take(idx) + seq![n] + nodes.skip(idx),
    decreases nodes.len(),
{
    if nodes.len() == 0 {
        assert(nodes.take(0) + seq![n] + nodes.skip(0) =~= seq![n]);
    } else if crate::order::str_le(n.name(), nodes[0].name()) {
        assert(idx == 0);
        assert(nodes.take(0) + seq![n] + nodes.skip(0) =~= seq![n] + nodes);
    } else {
        assert(idx >= 1);
        let rest = nodes.drop_first();
        assert(forall|k: int| 0 <= k < rest.len() ==> rest[k] == nodes[k + 1]);
        lemma_insert_sorted_at(rest, n, idx - 1);
        assert(seq![nodes[0]] + (rest.take(idx - 1) + seq![n] + rest.skip(idx - 1)) =~= nodes.take(
            idx,
        ) + seq![n] + nodes.skip(idx));
    }
}

/// What canonical insertion does: one node longer, holds exactly the old
/// names plus the new one, stays sorted, every element is an old node or the
/// new one, and — when the new name was absent from a unique list — the
/// names stay unique.
proof fn lemma_insert_sorted_props(nodes: Seq<NodeV>, n: NodeV)
    requires
        nodes_sorted(nodes),
    ensures
        insert_sorted(nodes, n).len() == nodes.len() + 1,
        forall|x: Seq<char>|
            #[trigger] has_node(insert_sorted(nodes, n), x) <==> (has_node(nodes, x) || x
                == n.name()),
        nodes_sorted(insert_sorted(nodes, n)),
        forall|i: int|
            0 <= i < insert_sorted(nodes, n).len() ==> (#[trigger] insert_sorted(nodes, n)[i] == n
                || exists|j: int| 0 <= j < nodes.len() && nodes[j] == insert_sorted(nodes, n)[i]),
        (nodes_unique(nodes) && !has_node(nodes, n.name())) ==> nodes_unique(
            insert_sorted(nodes, n),
        ),
    decreases nodes.len(),
{
    let res = insert_sorted(nodes, n);
    if nodes.len() == 0 {
        assert forall|x: Seq<char>| #[trigger] has_node(res, x) implies x == n.name() by {
            let i = choose|i: int| 0 <= i < res.len() && res[i].name() == x;
            assert(res[0] == n);
        }
        assert forall|x: Seq<char>| x == n.name() implies has_node(res, x) by {
            assert(res[0] == n);
        }
    } else if crate::order::str_le(n.name(), nodes[0].name()) {
        assert(res == seq![n] + nodes);
        assert(res[0] == n);
        assert(forall|i: int| 0 <= i < nodes.len() ==> res[i + 1] == nodes[i]);
        assert forall|x: Seq<char>| #[trigger] has_node(res, x) implies (has_node(nodes, x) || x
            == n.name()) by {
            let i = choose|i: int| 0 <= i < res.len() && res[i].name() == x;
            if i > 0 {
                assert(nodes[i - 1] == res[i]);
            }
        }
        assert forall|x: Seq<char>| has_node(nodes, x) implies has_node(res, x) by {
            let i = choose|i: int| 0 <= i < nodes.len() && nodes[i].name() == x;
            assert(res[i + 1] == nodes[i]);
        }
        assert forall|i: int, j: int| 0 <= i < j < res.len() implies crate::order::str_le(
            res[i].name(),
            res[j].name(),
        ) by {
            if i == 0 {
                assert(res[j] == nodes[j - 1]);
                if j > 1 {
                    crate::order::lemma_str_le_trans(
                        n.name(),
                        nodes[0].name(),
                        nodes[j - 1].name(),
                    );
                }
            } else {
                assert(res[i] == nodes[i - 1] && res[j] == nodes[j - 1]);
            }
        }
        if nodes_unique(nodes) && !has_node(nodes, n.name()) {
            assert forall|i: int, j: int| 0 <= i < j < res.len() implies res[i].name()
                != res[j].name() by {
                if i == 0 {
                    assert(res[j] == nodes[j - 1]);
                } else {
                    assert(res[i] == nodes[i - 1] && res[j] == nodes[j - 1]);
                }
            }
        }
    } else {
        crate::order::lemma_str_le_total(n.name(), nodes[0].name());
        let rest = nodes.drop_first();
        assert(forall|k: int| 0 <= k < rest.len() ==> rest[k] == nodes[k + 1]);
        assert(nodes_sorted(rest)) by {
            assert forall|i: int, j: int| 0 <= i < j < rest.len() implies crate::order::str_le(
                rest[i].name(),
                rest[j].name(),
            ) by {
                assert(rest[i] == nodes[i + 1] && rest[j] == nodes[j + 1]);
            }
        }
        lemma_insert_sorted_props(rest, n);
        let rec = insert_sorted(rest, n);
        assert(res == seq![nodes[0]] + rec);
        assert(res[0] == nodes[0]);
        assert(forall|i: int| 0 <= i < rec.len() ==> res[i + 1] == rec[i]);
        assert forall|x: Seq<char>| #[trigger] has_node(res, x) implies (has_node(nodes, x) || x
            == n.name()) by {
            let i = choose|i: int| 0 <= i < res.len() && res[i].name() == x;
            if i > 0 {
                assert(rec[i - 1] == res[i]);
                assert(has_node(rec, x));
                if has_node(rest, x) {
                    let j = choose|j: int| 0 <= j < rest.len() && rest[j].name() == x;
                    assert(nodes[j + 1] == rest[j]);
                }
            }
        }
        assert forall|x: Seq<char>| has_node(nodes, x) || x == n.name() implies has_node(
            res,
            x,
        ) by {
            if x == n.name() {
                assert(has_node(rec, x));
                let i = choose|i: int| 0 <= i < rec.len() && rec[i].name() == x;
                assert(res[i + 1] == rec[i]);
            } else {
                let i = choose|i: int| 0 <= i < nodes.len() && nodes[i].name() == x;
                if i == 0 {
                } else {
                    assert(rest[i - 1] == nodes[i]);
                    assert(has_node(rest, x));
                    assert(has_node(rec, x));
                    let j = choose|j: int| 0 <= j < rec.len() && rec[j].name() == x;
                    assert(res[j + 1] == rec[j]);
                }
            }
        }
        assert forall|i: int, j: int| 0 <= i < j < res.len() implies crate::order::str_le(
            res[i].name(),
            res[j].name(),
        ) by {
            if i == 0 {
                assert(res[j] == rec[j - 1]);
                if rec[j - 1] == n {
                } else {
                    let k = choose|k: int| 0 <= k < rest.len() && rest[k] == rec[j - 1];
                    assert(rest[k] == nodes[k + 1]);
                }
            } else {
                assert(res[i] == rec[i - 1] && res[j] == rec[j - 1]);
            }
        }
        if nodes_unique(nodes) && !has_node(nodes, n.name()) {
            assert(nodes_unique(rest)) by {
                assert forall|i: int, j: int| 0 <= i < j < rest.len() implies rest[i].name()
                    != rest[j].name() by {
                    assert(rest[i] == nodes[i + 1] && rest[j] == nodes[j + 1]);
                }
            }
            assert(!has_node(rest, n.name())) by {
                if has_node(rest, n.name()) {
                    let k = choose|k: int|
                        0 <= k < rest.len() && rest[k].name() == n.name();
                    assert(nodes[k + 1] == rest[k]);
                }
            }
            assert(!has_node(rec, nodes[0].name())) by {
                if has_node(rest, nodes[0].name()) {
                    let k = choose|k: int|
                        0 <= k < rest.len() && rest[k].name() == nodes[0].name();
                    assert(nodes[k + 1] == rest[k]);
                }
                if nodes[0].name() == n.name() {
                    assert(has_node(nodes, n.name()));
                }
            }
            assert forall|i: int, j: int| 0 <= i < j < res.len() implies res[i].name()
                != res[j].name() by {
                if i == 0 {
                    assert(res[j] == rec[j - 1]);
                    assert(rec[j - 1].name() != nodes[0].name());
                } else {
                    assert(res[i] == rec[i - 1] && res[j] == rec[j - 1]);
                }
            }
        }
    }
}

/// Inserts one node at its canonical position.
fn insert_node_sorted(nodes: &mut Vec<Node>, node: Node)
    ensures
        view_seq(final(nodes)@) == insert_sorted(view_seq(old(nodes)@), node@),
{
    let n = nodes.len();
    let mut idx: usize = 0;
    while idx < n && !crate::order::string_le(node.name(), nodes[idx].name())
        invariant
            n == nodes@.len(),
            idx <= n,
            nodes@ == old(nodes)@,
            forall|k: int|
                0 <= k < idx ==> !crate::order::str_le(
                    node@.name(),
                    #[trigger] view_seq(nodes@)[k].name(),
                ),
        decreases n - idx,
    {
        proof {
            assert(view_seq(nodes@)[idx as int] == nodes@[idx as int]@);
        }
        idx += 1;
    }
    let ghost prev = view_seq(nodes@);
    let ghost nv = node@;
    proof {
        assert(idx < n ==> crate::order::str_le(nv.name(), prev[idx as int].name())) by {
            if idx < n {
                assert(view_seq(nodes@)[idx as int] == nodes@[idx as int]@);
            }
        }
        lemma_insert_sorted_at(prev, nv, idx as int);
    }
    nodes.insert(idx, node);
    proof {
        assert(view_seq(nodes@) =~= prev.take(idx as int) + seq![nv] + prev.skip(idx as int)) by {
            assert forall|k: int| 0 <= k < nodes@.len() implies view_seq(nodes@)[k] == (prev.take(
                idx as int,
            ) + seq![nv] + prev.skip(idx as int))[k] by {
                assert(view_seq(nodes@)[k] == nodes@[k]@);
                if k < idx {
                    assert(nodes@[k] == old(nodes)@[k]);
                    assert(view_seq(old(nodes)@)[k] == old(nodes)@[k]@);
                } else if k > idx {
                    assert(nodes@[k] == old(nodes)@[k - 1]);
                    assert(view_seq(old(nodes)@)[k - 1] == old(nodes)@[k - 1]@);
                }
            }
        }
    }
}

/// Parse of one document onto the topology built so far: the `routers`
/// section first, then `switches`, then `links`. A document that is not a
/// mapping contributes nothing.
pub open spec fn spec_parse_document(t: TopologyV, doc: DocNode) -> Result<
    TopologyV,
    ConfigErrorV,
> {
    match doc {
        DocNode::Mapping(entries) => {
            let t1 = match spec_lookup(entries@, "routers"@) {
                None => Ok(t),
                Some(node) => match spec_parse_routers(node) {
                    Err(e) => Err(e),
                    Ok(rs) => spec_add_routers(t, rs),
                },
            };
            match t1 {
                Err(e) => Err(e),
                Ok(ta) => {
                    let t2 = match spec_lookup(entries@, "switches"@) {
                        None => Ok(ta),
                        Some(node) => match spec_parse_switches(node) {
                            Err(e) => Err(e),
                            Ok(ss) => spec_add_switches(ta, ss),
                        },
                    };
                    match t2 {
                        Err(e) => Err(e),
                        Ok(tb) => match spec_lookup(entries@, "links"@) {
                            None => Ok(tb),
                            Some(node) => match spec_parse_links(node) {
                                Err(e) => Err(e),
                                Ok(ls) => spec_add_links(tb, ls),
                            },
                        },
                    }
                },
            }
        },
        _ => Ok(t),
    }
}

/// Parse of a sequence of documents onto the topology built so far.
pub open spec fn spec_parse_documents(docs: Seq<DocNode>, t: TopologyV) -> Result<
    TopologyV,
    ConfigErrorV,
>
    decreases docs.len(),
{
    if docs.len() == 0 {
        Ok(t)
    } else {
        match spec_parse_document(t, docs[0]) {
            Err(e) => Err(e),
            Ok(t2) => spec_parse_documents(docs.drop_first(), t2),
        }
    }
}

/// Parse of a whole document set, starting from the empty topology.
pub open spec fn spec_parse_topology(docs: Seq<DocNode>) -> Result<TopologyV, ConfigErrorV> {
    spec_parse_documents(docs, empty_topology())
}

impl Topology {
    /// The empty topology.
    pub fn new() -> (r: Topology)
        ensures
            r@ == empty_topology(),
    {
        let t = Topology { nodes: Vec::new(), links: Vec::new() };
        proof {
            assert(view_seq(t.nodes@) =~= Seq::<NodeV>::empty());
            assert(view_seq(t.links@) =~= Seq::<LinkV>::empty());
        }
        t
    }

    /// Whether the graph holds a node of this name.
    pub fn contains_node(&self, name: &String) -> (r: bool)
        ensures
            r == has_node(self@.nodes, name@),
    {
        let n = self.nodes.len();
        let mut i: usize = 0;
        while i < n
            invariant
                n == self.nodes@.len(),
                i <= n,
                forall|j: int| 0 <= j < i ==> self.nodes@[j]@.name() != name@,
            decreases n - i,
        {
            if *self.nodes[i].name() == *name {
                proof {
                    assert(self@.nodes[i as int] == self.nodes@[i as int]@);
                }
                return true;
            }
            i += 1;
        }
        proof {
            assert forall|j: int| 0 <= j < self@.nodes.len() implies self@.nodes[j].name()
                != name@ by {
                assert(self@.nodes[j] == self.nodes@[j]@);
            }
        }
        false
    }

    /// Whether some configured link describes the same unordered endpoint
    /// pair as `link`.
    pub fn link_exists(&self, link: &Link) -> (r: bool)
        ensures
            r == has_conflict(self@.links, link@),
    {
        let n = self.links.len();
        let mut i: usize = 0;
        while i < n
            invariant
                n == self.links@.len(),
                i <= n,
                forall|j: int| 0 <= j < i ==> !links_conflict(self.links@[j]@, link@),
            decreases n - i,
        {
            let l2 = &self.links[i];
            let fwd = l2.src_device == link.src_device && l2.src_iface == link.src_iface
                && l2.dst_device == link.dst_device && l2.dst_iface == link.dst_iface;
            let rev = l2.src_device == link.dst_device && l2.src_iface == link.dst_iface
                && l2.dst_device == link.src_device && l2.dst_iface == link.src_iface;
            if fwd || rev {
                proof {
                    assert(self@.links[i as int] == self.links@[i as int]@);
                }
                return true;
            }
            i += 1;
        }
        proof {
            assert forall|j: int| 0 <= j < self@.links.len() implies !links_conflict(
                self@.links[j],
                link@,
            ) by {
                assert(self@.links[j] == self.links@[j]@);
            }
        }
        false
    }

    /// Parses the `routers` section into routers, in declaration order.
    pub fn parse_router_configs(&self, node: &DocNode) -> (r: Result<Vec<Router>, ConfigError>)
        ensures
            match r {
                Ok(v) => spec_parse_routers(*node) == Ok::<_, ConfigErrorV>(view_seq(v@)),
                Err(e) => spec_parse_routers(*node) == Err::<Seq<RouterV>, _>(e@),
            },
    {
        match node {
            DocNode::Null => {
                proof {
                    assert(view_seq(Seq::<Router>::empty()) =~= Seq::<RouterV>::empty());
                }
                Ok(Vec::new())
            },
            DocNode::Mapping(entries) => {
                let base = String::from_str("routers");
                let n = entries.len();
                let mut acc: Vec<Router> = Vec::new();
                let mut i: usize = 0;
                proof {
                    assert(entries@.skip(0) =~= entries@);
                    assert(view_seq(acc@) =~= Seq::<RouterV>::empty());
                }
                while i < n
                    invariant
                        n == entries@.len(),
                        i <= n,
                        base@ == "routers"@,
                        spec_parse_routers(*node) == spec_parse_routers_from(
                            entries@,
                            Seq::empty(),
                        ),
                        spec_parse_routers_from(entries@, Seq::empty())
                            == spec_parse_routers_from(entries@.skip(i as int), view_seq(acc@)),
                    decreases n - i,
                {
                    proof {
                        assert(entries@.skip(i as int)[0] == entries@[i as int]);
                        assert(entries@.skip(i as int).drop_first() =~= entries@.skip(i + 1));
                    }
                    match &entries[i].0 {
                        DocNode::Scalar(name) => {
                            let child = child_path(&base, name);
                            let router: Router = match &entries[i].1 {
                                DocNode::Mapping(cfg) => {
                                    match Router::from_yaml_config(name, cfg, &child) {
                                        Ok(rt) => rt,
                                        Err(e) => {
                                            return Err(e);
                                        },
                                    }
                                },
                                DocNode::Null => {
                                    let none: Vec<(DocNode, DocNode)> = Vec::new();
                                    match Router::from_yaml_config(name, &none, &child) {
                                        Ok(rt) => rt,
                                        Err(e) => {
                                            return Err(e);
                                        },
                                    }
                                },
                                _ => {
                                    return Err(
                                        ConfigError::IncorrectType {
                                            field: child,
                                            expected: String::from_str("mapping"),
                                        },
                                    );
                                },
                            };
                            proof {
                                let ghost prev = view_seq(acc@);
                                assert(view_seq(acc@.push(router)) =~= prev.push(router@));
                            }
                            acc.push(router);
                        },
                        _ => {
                            return Err(
                                ConfigError::IncorrectType {
                                    field: base,
                                    expected: String::from_str("string"),
                                },
                            );
                        },
                    }
                    i += 1;
                }
                proof {
                    assert(entries@.skip(n as int) =~= Seq::<(DocNode, DocNode)>::empty());
                }
                Ok(acc)
            },
            _ => Err(
                ConfigError::IncorrectType {
                    field: String::from_str("routers"),
                    expected: String::from_str("mapping"),
                },
            ),
        }
    }

    /// Parses the `switches` section into switches, in declaration order.
    pub fn parse_switch_configs(&self, node: &DocNode) -> (r: Result<Vec<Switch>, ConfigError>)
        ensures
            match r {
                Ok(v) => spec_parse_switches(*node) == Ok::<_, ConfigErrorV>(view_seq(v@)),
                Err(e) => spec_parse_switches(*node) == Err::<Seq<SwitchV>, _>(e@),
            },
    {
        match node {
            DocNode::Null => {
                proof {
                    assert(view_seq(Seq::<Switch>::empty()) =~= Seq::<SwitchV>::empty());
                }
                Ok(Vec::new())
            },
            DocNode::Mapping(entries) => {
                let base = String::from_str("switches");
                let n = entries.len();
                let mut acc: Vec<Switch> = Vec::new();
                let mut i: usize = 0;
                proof {
                    assert(entries@.skip(0) =~= entries@);
                    assert(view_seq(acc@) =~= Seq::<SwitchV>::empty());
                }
                while i < n
                    invariant
                        n == entries@.len(),
                        i <= n,
                        base@ == "switches"@,
                        spec_parse_switches(*node) == spec_parse_switches_from(
                            entries@,
                            Seq::empty(),
                        ),
                        spec_parse_switches_from(entries@, Seq::empty())
                            == spec_parse_switches_from(entries@.skip(i as int), view_seq(acc@)),
                    decreases n - i,
                {
                    proof {
                        assert(entries@.skip(i as int)[0] == entries@[i as int]);
                        assert(entries@.skip(i as int).drop_first() =~= entries@.skip(i + 1));
                    }
                    match &entries[i].0 {
                        DocNode::Scalar(name) => {
                            let child = child_path(&base, name);
                            let switch: Switch = match &entries[i].1 {
                                DocNode::Mapping(cfg) => {
                                    match Switch::from_yaml_config(name, cfg, &child) {
                                        Ok(sw) => sw,
                                        Err(e) => {
                                            return Err(e);
                                        },
                                    }
                                },
                                DocNode::Null => {
                                    let none: Vec<(DocNode, DocNode)> = Vec::new();
                                    match Switch::from_yaml_config(name, &none, &child) {
                                        Ok(sw) => sw,
                                        Err(e) => {
                                            return Err(e);
                                        },
                                    }
                                },
                                _ => {
                                    return Err(
                                        ConfigError::IncorrectType {
                                            field: child,
                                            expected: String::from_str("mapping"),
                                        },
                                    );
                                },
                            };
                            proof {
                                let ghost prev = view_seq(acc@);
                                assert(view_seq(acc@.push(switch)) =~= prev.push(switch@));
                            }
                            acc.push(switch);
                        },
                        _ => {
                            return Err(
                                ConfigError::IncorrectType {
                                    field: base,
                                    expected: String::from_str("string"),
                                },
                            );
                        },
                    }
                    i += 1;
                }
                proof {
                    assert(entries@.skip(n as int) =~= Seq::<(DocNode, DocNode)>::empty());
                }
                Ok(acc)
            },
            _ => Err(
                ConfigError::IncorrectType {
                    field: String::from_str("switches"),
                    expected: String::from_str("mapping"),
                },
            ),
        }
    }

    /// Parses the `links` section into links, in declaration order.
    pub fn parse_links_configs(&self, node: &DocNode) -> (r: Result<Vec<Link>, ConfigError>)
        ensures
            match r {
                Ok(v) => spec_parse_links(*node) == Ok::<_, ConfigErrorV>(view_seq(v@)),
                Err(e) => spec_parse_links(*node) == Err::<Seq<LinkV>, _>(e@),
            },
    {
        match node {
            DocNode::Null => {
                proof {
                    assert(view_seq(Seq::<Link>::empty()) =~= Seq::<LinkV>::empty());
                }
                Ok(Vec::new())
            },
            DocNode::Sequence(items) => {
                let n = items.len();
                let mut acc: Vec<Link> = Vec::new();
                let mut i: usize = 0;
                proof {
                    assert(items@.skip(0) =~= items@);
                    assert(view_seq(acc@) =~= Seq::<LinkV>::empty());
                }
                while i < n
                    invariant
                        n == items@.len(),
                        i <= n,
                        spec_parse_links(*node) == spec_parse_links_from(items@, Seq::empty()),
                        spec_parse_links_from(items@, Seq::empty()) == spec_parse_links_from(
                            items@.skip(i as int),
                            view_seq(acc@),
                        ),
                    decreases n - i,
                {
                    proof {
                        assert(items@.skip(i as int)[0] == items@[i as int]);
                        assert(items@.skip(i as int).drop_first() =~= items@.skip(i + 1));
                    }
                    match &items[i] {
                        DocNode::Mapping(entries) => {
                            let link = match parse_link_entry(entries) {
                                Ok(l) => l,
                                Err(e) => {
                                    return Err(e);
                                },
                            };
                            proof {
                                let ghost prev = view_seq(acc@);
                                assert(view_seq(acc@.push(link)) =~= prev.push(link@));
                            }
                            acc.push(link);
                        },
                        _ => {
                            return Err(
                                ConfigError::IncorrectType {
                                    field: String::from_str("links"),
                                    expected: String::from_str("mapping"),
                                },
                            );
                        },
                    }
                    i += 1;
                }
                proof {
                    assert(items@.skip(n as int) =~= Seq::<DocNode>::empty());
                }
                Ok(acc)
            },
            _ => Err(
                ConfigError::IncorrectType {
                    field: String::from_str("links"),
                    expected: String::from_str("sequence"),
                },
            ),
        }
    }

    /// Inserts parsed routers into the graph, rejecting a repeated name.
    #[verifier::loop_isolation(false)]
    pub fn add_routers(self, routers: Vec<Router>) -> (r: Result<Topology, ConfigError>)
        ensures
            res_view(r) == spec_add_routers(self@, view_seq(routers@)),
    {
        let ghost t0 = self@;
        let ghost rs0 = view_seq(routers@);
        let mut topo = self;
        let mut pending = routers;
        while pending.len() > 0
            invariant
                spec_add_routers(t0, rs0) == spec_add_routers(topo@, view_seq(pending@)),
            decreases pending.len(),
        {
            proof {
                assert(view_seq(pending@)[0] == pending@[0]@);
                assert(view_seq(pending@.remove(0)) =~= view_seq(pending@).drop_first());
            }
            let router = pending.remove(0);
            if topo.contains_node(&router.name) {
                return Err(ConfigError::DuplicateNode { name: router.name });
            }
            insert_node_sorted(&mut topo.nodes, Node::Router(router));
        }
        proof {
            assert(view_seq(pending@) =~= Seq::<RouterV>::empty());
        }
        Ok(topo)
    }

    /// Inserts parsed switches into the graph, rejecting a repeated name.
    #[verifier::loop_isolation(false)]
    pub fn add_switches(self, switches: Vec<Switch>) -> (r: Result<Topology, ConfigError>)
        ensures
            res_view(r) == spec_add_switches(self@, view_seq(switches@)),
    {
        let ghost t0 = self@;
        let ghost ss0 = view_seq(switches@);
        let mut topo = self;
        let mut pending = switches;
        while pending.len() > 0
            invariant
                spec_add_switches(t0, ss0) == spec_add_switches(topo@, view_seq(pending@)),
            decreases pending.len(),
        {
            proof {
                assert(view_seq(pending@)[0] == pending@[0]@);
                assert(view_seq(pending@.remove(0)) =~= view_seq(pending@).drop_first());
            }
            let switch = pending.remove(0);
            if topo.contains_node(&switch.name) {
                return Err(ConfigError::DuplicateNode { name: switch.name });
            }
            insert_node_sorted(&mut topo.nodes, Node::Switch(switch));
        }
        proof {
            assert(view_seq(pending@) =~= Seq::<SwitchV>::empty());
        }
        Ok(topo)
    }

    /// Inserts parsed links into the graph, rejecting an endpoint on a node
    /// that does not exist and a repeated unordered endpoint pair.
    #[verifier::loop_isolation(false)]
    pub fn add_links(self, links: Vec<Link>) -> (r: Result<Topology, ConfigError>)
        ensures
            res_view(r) == spec_add_links(self@, view_seq(links@)),
    {
        let ghost t0 = self@;
        let ghost ls0 = view_seq(links@);
        let mut topo = self;
        let mut pending = links;
        while pending.len() > 0
            invariant
                spec_add_links(t0, ls0) == spec_add_links(topo@, view_seq(pending@)),
            decreases pending.len(),
        {
            proof {
                assert(view_seq(pending@)[0] == pending@[0]@);
                assert(view_seq(pending@.remove(0)) =~= view_seq(pending@).drop_first());
            }
            let link = pending.remove(0);
            if !topo.contains_node(&link.src_device) {
                return Err(ConfigError::UnknownNode { name: link.src_device });
            }
            if !topo.contains_node(&link.dst_device) {
                return Err(ConfigError::UnknownNode { name: link.dst_device });
            }
            if topo.link_exists(&link) {
                return Err(ConfigError::DuplicateLink { src: link.src(), dst: link.dst() });
            }
            proof {
                let ghost prev = view_seq(topo.links@);
                assert(view_seq(topo.links@.push(link)) =~= prev.push(link@));
            }
            topo.links.push(link);
        }
        proof {
            assert(view_seq(pending@) =~= Seq::<LinkV>::empty());
        }
        Ok(topo)
    }

    /// Parses one document onto the topology built so far: routers, then
    /// switches, then links, each section validated as it is inserted.
    pub fn parse_topology_config(self, doc: &DocNode) -> (r: Result<Topology, ConfigError>)
        ensures
            res_view(r) == spec_parse_document(self@, *doc),
    {
        let entries = match doc {
            DocNode::Mapping(entries) => entries,
            _ => {
                return Ok(self);
            },
        };
        let mut topo = self;
        let rkey = String::from_str("routers");
        match lookup(entries, &rkey) {
            None => {},
            Some(node) => {
                let routers = match topo.parse_router_configs(node) {
                    Ok(v) => v,
                    Err(e) => {
                        return Err(e);
                    },
                };
                topo = match topo.add_routers(routers) {
                    Ok(t) => t,
                    Err(e) => {
                        return Err(e);
                    },
                };
            },
        }
        let skey = String::from_str("switches");
        match lookup(entries, &skey) {
            None => {},
            Some(node) => {
                let switches = match topo.parse_switch_configs(node) {
                    Ok(v) => v,
                    Err(e) => {
                        return Err(e);
                    },
                };
                topo = match topo.add_switches(switches) {
                    Ok(t) => t,
                    Err(e) => {
                        return Err(e);
                    },
                };
            },
        }
        let lkey = String::from_str("links");
        match lookup(entries, &lkey) {
            None => {},
            Some(node) => {
                let links = match topo.parse_links_configs(node) {
                    Ok(v) => v,
                    Err(e) => {
                        return Err(e);
                    },
                };
                topo = match topo.add_links(links) {
                    Ok(t) => t,
                    Err(e) => {
                        return Err(e);
                    },
                };
            },
        }
        Ok(topo)
    }

    /// Parses and validates a whole topology from text: the tokenizer turns
    /// the text into documents, and each document is folded onto the graph.
    #[verifier::loop_isolation(false)]
    pub fn from_yaml_str(yaml_str: &str) -> (r: Result<Topology, Error>)
        ensures
            match yaml_documents_of(yaml_str@) {
                None => r matches Err(e) && e@ == ErrorV::Config(ConfigErrorV::YamlSyntax),
                Some(docs) => match spec_parse_topology(docs) {
                    Ok(t) => r matches Ok(topo) && topo@ == t,
                    Err(e) => r matches Err(err) && err@ == ErrorV::Config(e),
                },
            },
    {
        let docs = match load_yaml_documents(yaml_str) {
            None => {
                return Err(Error::Config(ConfigError::YamlSyntax));
            },
            Some(docs) => docs,
        };
        let mut topo = Topology::new();
        let ghost docs0 = docs@;
        let n = docs.len();
        let mut i: usize = 0;
        proof {
            assert(docs@.skip(0) =~= docs@);
        }
        while i < n
            invariant
                n == docs@.len(),
                i <= n,
                docs@ == docs0,
                spec_parse_documents(docs0, empty_topology()) == spec_parse_documents(
                    docs@.skip(i as int),
                    topo@,
                ),
            decreases n - i,
        {
            proof {
                assert(docs@.skip(i as int)[0] == docs@[i as int]);
                assert(docs@.skip(i as int).drop_first() =~= docs@.skip(i + 1));
            }
            topo = match topo.parse_topology_config(&docs[i]) {
                Ok(t) => t,
                Err(e) => {
                    return Err(Error::Config(e));
                },
            };
            i += 1;
        }
        proof {
            assert(docs@.skip(n as int) =~= Seq::<DocNode>::empty());
        }
        Ok(topo)
    }
}

/// Unique node names across routers and switches.
pub open spec fn nodes_unique(nodes: Seq<NodeV>) -> bool {
    forall|i: int, j: int| 0 <= i < j < nodes.len() ==> nodes[i].name() != nodes[j].name()
}

/// The graph invariants of a topology: unique node names in canonical
/// (ascending) order, well-formed nodes, every link between existing nodes,
/// and no unordered endpoint pair twice.
pub open spec fn topology_wf(t: TopologyV) -> bool {
    &&& nodes_unique(t.nodes)
    &&& nodes_sorted(t.nodes)
    &&& forall|i: int| 0 <= i < t.nodes.len() ==> crate::devices::node_wf(#[trigger] t.nodes[i])
    &&& forall|i: int|
        0 <= i < t.links.len() ==> has_node(t.nodes, #[trigger] t.links[i].src_device) && has_node(
            t.nodes,
            t.links[i].dst_device,
        )
    &&& forall|i: int, j: int|
        0 <= i < j < t.links.len() ==> !links_conflict(t.links[i], t.links[j])
}

/// Every router accepted from the `routers` section is well formed.
proof fn lemma_parse_routers_from_wf(entries: Seq<(DocNode, DocNode)>, acc: Seq<RouterV>)
    requires
        forall|i: int| 0 <= i < acc.len() ==> crate::devices::node_wf(NodeV::Router(#[trigger] acc[i])),
    ensures
        spec_parse_routers_from(entries, acc) matches Ok(rs) ==> forall|i: int|
            0 <= i < rs.len() ==> crate::devices::node_wf(NodeV::Router(#[trigger] rs[i])),
    decreases entries.len(),
{
    if entries.len() > 0 {
        match entries[0].0 {
            DocNode::Scalar(name) => {
                let sub = match entries[0].1 {
                    DocNode::Mapping(cfg) => spec_parse_router(
                        name@,
                        cfg@,
                        "routers"@ + "->"@ + name@,
                    ),
                    DocNode::Null => spec_parse_router(
                        name@,
                        Seq::empty(),
                        "routers"@ + "->"@ + name@,
                    ),
                    _ => Err(
                        ConfigErrorV::IncorrectType {
                            field: "routers"@ + "->"@ + name@,
                            expected: "mapping"@,
                        },
                    ),
                };
                match sub {
                    Err(_) => {},
                    Ok(r) => {
                        match entries[0].1 {
                            DocNode::Mapping(cfg) => {
                                crate::devices::lemma_parse_router_wf(
                                    name@,
                                    cfg@,
                                    "routers"@ + "->"@ + name@,
                                );
                            },
                            DocNode::Null => {
                                crate::devices::lemma_parse_router_wf(
                                    name@,
                                    Seq::empty(),
                                    "routers"@ + "->"@ + name@,
                                );
                            },
                            _ => {},
                        }
                        assert(forall|i: int|
                            0 <= i < acc.len() ==> acc[i] == #[trigger] acc.push(r)[i]);
                        lemma_parse_routers_from_wf(entries.drop_first(), acc.push(r));
                    },
                }
            },
            _ => {},
        }
    }
}

/// Every switch accepted from the `switches` section is well formed.
proof fn lemma_parse_switches_from_wf(entries: Seq<(DocNode, DocNode)>, acc: Seq<SwitchV>)
    requires
        forall|i: int| 0 <= i < acc.len() ==> crate::devices::node_wf(NodeV::Switch(#[trigger] acc[i])),
    ensures
        spec_parse_switches_from(entries, acc) matches Ok(ss) ==> forall|i: int|
            0 <= i < ss.len() ==> crate::devices::node_wf(NodeV::Switch(#[trigger] ss[i])),
    decreases entries.len(),
{
    if entries.len() > 0 {
        match entries[0].0 {
            DocNode::Scalar(name) => {
                let sub = match entries[0].1 {
                    DocNode::Mapping(cfg) => spec_parse_switch(
                        name@,
                        cfg@,
                        "switches"@ + "->"@ + name@,
                    ),
                    DocNode::Null => spec_parse_switch(
                        name@,
                        Seq::empty(),
                        "switches"@ + "->"@ + name@,
                    ),
                    _ => Err(
                        ConfigErrorV::IncorrectType {
                            field: "switches"@ + "->"@ + name@,
                            expected: "mapping"@,
                        },
                    ),
                };
                match sub {
                    Err(_) => {},
                    Ok(s) => {
                        match entries[0].1 {
                            DocNode::Mapping(cfg) => {
                                crate::devices::lemma_parse_switch_wf(
                                    name@,
                                    cfg@,
                                    "switches"@ + "->"@ + name@,
                                );
                            },
                            DocNode::Null => {
                                crate::devices::lemma_parse_switch_wf(
                                    name@,
                                    Seq::empty(),
                                    "switches"@ + "->"@ + name@,
                                );
                            },
                            _ => {},
                        }
                        assert(forall|i: int|
                            0 <= i < acc.len() ==> acc[i] == #[trigger] acc.push(s)[i]);
                        lemma_parse_switches_from_wf(entries.drop_first(), acc.push(s));
                    },
                }
            },
            _ => {},
        }
    }
}

/// Inserting well-formed routers into a well-formed graph keeps it well
/// formed and leaves the links alone.
proof fn lemma_add_routers_wf(t: TopologyV, rs: Seq<RouterV>)
    requires
        topology_wf(t),
        forall|i: int| 0 <= i < rs.len() ==> crate::devices::node_wf(NodeV::Router(#[trigger] rs[i])),
    ensures
        spec_add_routers(t, rs) matches Ok(t2) ==> topology_wf(t2) && t2.links == t.links,
    decreases rs.len(),
{
    if rs.len() > 0 && !has_node(t.nodes, rs[0].name) {
        let node = NodeV::Router(rs[0]);
        lemma_insert_sorted_props(t.nodes, node);
        let t1 = TopologyV { nodes: insert_sorted(t.nodes, node), links: t.links };
        assert forall|i: int| 0 <= i < t1.nodes.len() implies crate::devices::node_wf(
            #[trigger] t1.nodes[i],
        ) by {
            if t1.nodes[i] == node {
            } else {
                let j = choose|j: int| 0 <= j < t.nodes.len() && t.nodes[j] == t1.nodes[i];
            }
        }
        assert forall|i: int| 0 <= i < t1.links.len() implies has_node(
            t1.nodes,
            #[trigger] t1.links[i].src_device,
        ) && has_node(t1.nodes, t1.links[i].dst_device) by {
            assert(has_node(t.nodes, t.links[i].src_device));
            assert(has_node(t.nodes, t.links[i].dst_device));
        }
        assert(topology_wf(t1));
        lemma_add_routers_wf(t1, rs.drop_first());
    }
}

/// Inserting well-formed switches into a well-formed graph keeps it well
/// formed and leaves the links alone.
proof fn lemma_add_switches_wf(t: TopologyV, ss: Seq<SwitchV>)
    requires
        topology_wf(t),
        forall|i: int| 0 <= i < ss.len() ==> crate::devices::node_wf(NodeV::Switch(#[trigger] ss[i])),
    ensures
        spec_add_switches(t, ss) matches Ok(t2) ==> topology_wf(t2) && t2.links == t.links,
    decreases ss.len(),
{
    if ss.len() > 0 && !has_node(t.nodes, ss[0].name) {
        let node = NodeV::Switch(ss[0]);
        lemma_insert_sorted_props(t.nodes, node);
        let t1 = TopologyV { nodes: insert_sorted(t.nodes, node), links: t.links };
        assert forall|i: int| 0 <= i < t1.nodes.len() implies crate::devices::node_wf(
            #[trigger] t1.nodes[i],
        ) by {
            if t1.nodes[i] == node {
            } else {
                let j = choose|j: int| 0 <= j < t.nodes.len() && t.nodes[j] == t1.nodes[i];
            }
        }
        assert forall|i: int| 0 <= i < t1.links.len() implies has_node(
            t1.nodes,
            #[trigger] t1.links[i].src_device,
        ) && has_node(t1.nodes, t1.links[i].dst_device) by {
            assert(has_node(t.nodes, t.links[i].src_device));
            assert(has_node(t.nodes, t.links[i].dst_device));
        }
        assert(topology_wf(t1));
        lemma_add_switches_wf(t1, ss.drop_first());
    }
}

/// Inserting validated links into a well-formed graph keeps it well formed
/// and leaves the nodes alone.
proof fn lemma_add_links_wf(t: TopologyV, ls: Seq<LinkV>)
    requires
        topology_wf(t),
    ensures
        spec_add_links(t, ls) matches Ok(t2) ==> topology_wf(t2) && t2.nodes == t.nodes,
    decreases ls.len(),
{
    if ls.len() > 0 && has_node(t.nodes, ls[0].src_device) && has_node(t.nodes, ls[0].dst_device)
        && !has_conflict(t.links, ls[0]) {
        let t1 = TopologyV { nodes: t.nodes, links: t.links.push(ls[0]) };
        assert(forall|i: int| 0 <= i < t.links.len() ==> t.links[i] == #[trigger] t1.links[i]);
        assert forall|i: int, j: int| 0 <= i < j < t1.links.len() implies !links_conflict(
            t1.links[i],
            t1.links[j],
        ) by {
            if j == t.links.len() as int {
                assert(t1.links[i] == t.links[i]);
                assert(!links_conflict(t.links[i], ls[0]));
            }
        }
        lemma_add_links_wf(t1, ls.drop_first());
    }
}

/// A document folded onto a well-formed graph yields a well-formed graph.
proof fn lemma_parse_document_wf(t: TopologyV, doc: DocNode)
    requires
        topology_wf(t),
    ensures
        spec_parse_document(t, doc) matches Ok(t2) ==> topology_wf(t2),
{
    match doc {
        DocNode::Mapping(entries) => {
            let t1 = match spec_lookup(entries@, "routers"@) {
                None => Ok(t),
                Some(node) => match spec_parse_routers(node) {
                    Err(e) => Err(e),
                    Ok(rs) => spec_add_routers(t, rs),
                },
            };
            match spec_lookup(entries@, "routers"@) {
                None => {},
                Some(node) => match node {
                    DocNode::Mapping(rentries) => {
                        lemma_parse_routers_from_wf(rentries@, Seq::empty());
                        match spec_parse_routers_from(rentries@, Seq::empty()) {
                            Ok(rs) => {
                                lemma_add_routers_wf(t, rs);
                            },
                            Err(_) => {},
                        }
                    },
                    _ => {},
                },
            }
            match t1 {
                Err(_) => {},
                Ok(ta) => {
                    assert(topology_wf(ta));
                    let t2 = match spec_lookup(entries@, "switches"@) {
                        None => Ok(ta),
                        Some(node) => match spec_parse_switches(node) {
                            Err(e) => Err(e),
                            Ok(ss) => spec_add_switches(ta, ss),
                        },
                    };
                    match spec_lookup(entries@, "switches"@) {
                        None => {},
                        Some(node) => match node {
                            DocNode::Mapping(sentries) => {
                                lemma_parse_switches_from_wf(sentries@, Seq::empty());
                                match spec_parse_switches_from(sentries@, Seq::empty()) {
                                    Ok(ss) => {
                                        lemma_add_switches_wf(ta, ss);
                                    },
                                    Err(_) => {},
                                }
                            },
                            _ => {},
                        },
                    }
                    match t2 {
                        Err(_) => {},
                        Ok(tb) => {
                            assert(topology_wf(tb));
                            match spec_lookup(entries@, "links"@) {
                                None => {},
                                Some(node) => match spec_parse_links(node) {
                                    Err(_) => {},
                                    Ok(ls) => {
                                        lemma_add_links_wf(tb, ls);
                                    },
                                },
                            }
                        },
                    }
                },
            }
        },
        _ => {},
    }
}

/// Documents folded from a well-formed graph yield a well-formed graph.
proof fn lemma_parse_documents_wf(docs: Seq<DocNode>, t: TopologyV)
    requires
        topology_wf(t),
    ensures
        spec_parse_documents(docs, t) matches Ok(t2) ==> topology_wf(t2),
    decreases docs.len(),
{
    if docs.len() > 0 {
        lemma_parse_document_wf(t, docs[0]);
        match spec_parse_document(t, docs[0]) {
            Err(_) => {},
            Ok(t2) => {
                lemma_parse_documents_wf(docs.drop_first(), t2);
            },
        }
    }
}

/// Every topology the parser accepts satisfies the graph invariants: node
/// names are unique, every node is well formed (unique interface names,
/// addresses within their family's prefix bound), every link joins existing
/// nodes, and no two links share an unordered endpoint pair.
pub proof fn lemma_parse_topology_wf(docs: Seq<DocNode>)
    ensures
        spec_parse_topology(docs) matches Ok(t) ==> topology_wf(t),
{
    lemma_parse_documents_wf(docs, empty_topology());
}

impl Default for Topology {
    /// The empty topology.
    fn default() -> (r: Topology)
        ensures
            r@ == empty_topology(),
    {
        Topology::new()
    }
}

/// Parses one link entry's four required fields.
fn parse_link_entry(entries: &Vec<(DocNode, DocNode)>) -> (r: Result<Link, ConfigError>)
    ensures
        res_view(r) == spec_parse_link(entries@),
{
    let src_device = match link_field(entries, "src-device") {
        Ok(s) => s,
        Err(e) => {
            return Err(e);
        },
    };
    let src_iface = match link_field(entries, "src-iface") {
        Ok(s) => s,
        Err(e) => {
            return Err(e);
        },
    };
    let dst_device = match link_field(entries, "dst-device") {
        Ok(s) => s,
        Err(e) => {
            return Err(e);
        },
    };
    let dst_iface = match link_field(entries, "dst-iface") {
        Ok(s) => s,
        Err(e) => {
            return Err(e);
        },
    };
    Ok(Link { src_device, src_iface, dst_device, dst_iface })
}

/// Reads one required string field of a link entry.
fn link_field(entries: &Vec<(DocNode, DocNode)>, key: &str) -> (r: Result<String, ConfigError>)
    ensures
        match r {
            Ok(s) => spec_link_field(entries@, key@) == Ok::<_, ConfigErrorV>(s@),
            Err(e) => spec_link_field(entries@, key@) == Err::<Seq<char>, _>(e@),
        },
{
    let owned = key.to_owned();
    let base = String::from_str("links");
    match lookup(entries, &owned) {
        None => Err(ConfigError::MissingField { field: child_path(&base, &owned) }),
        Some(node) => match node {
            DocNode::Scalar(s) => Ok(s.clone()),
            _ => Err(
                ConfigError::IncorrectType {
                    field: child_path(&base, &owned),
                    expected: String::from_str("string"),
                },
            ),
        },
    }
}

} // verus!
