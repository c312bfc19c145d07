//! Routing-daemon plugin configuration.
//!
//! The plugin runners themselves are external collaborators: the library
//! only parses and holds their configuration (install paths, user and
//! group), with the same exact-parse contracts as the topology itself. The
//! front end spawns the daemons from these values.

use vstd::prelude::*;

use vstd::string::StringExecFns;

use crate::doc::lookup;
use crate::doc::spec_lookup;
use crate::doc::DocNode;
use crate::errors::ConfigError;
use crate::errors::ConfigErrorV;
use crate::util::res_view;
use crate::util::view_seq;
use crate::yaml::load_yaml_documents;
use crate::yaml::yaml_documents_of;

verus! {

/// The holo daemon's configuration.
#[derive(Debug, Clone)]
pub struct Holo {
    pub daemon_dir: String,
    pub cli_dir: String,
    pub sysconfdir: String,
    pub user: String,
    pub group: String,
}

/// The mathematical value of a [`Holo`].
pub struct HoloV {
    pub daemon_dir: Seq<char>,
    pub cli_dir: Seq<char>,
    pub sysconfdir: Seq<char>,
    pub user: Seq<char>,
    pub group: Seq<char>,
}

impl View for Holo {
    type V = HoloV;

    open spec fn view(&self) -> HoloV {
        HoloV {
            daemon_dir: self.daemon_dir@,
            cli_dir: self.cli_dir@,
            sysconfdir: self.sysconfdir@,
            user: self.user@,
            group: self.group@,
        }
    }
}

/// The default holo configuration.
pub open spec fn default_holo() -> HoloV {
    HoloV {
        daemon_dir: "/usr/bin/"@,
        cli_dir: "/usr/bin/"@,
        sysconfdir: "/etc/holod"@,
        user: "holo"@,
        group: "holo"@,
    }
}

impl Default for Holo {
    /// The default install paths, user and group.
    fn default() -> (r: Holo)
        ensures
            r@ == default_holo(),
    {
        Holo {
            daemon_dir: String::from_str("/usr/bin/"),
            cli_dir: String::from_str("/usr/bin/"),
            sysconfdir: String::from_str("/etc/holod"),
            user: String::from_str("holo"),
            group: String::from_str("holo"),
        }
    }
}

/// The frr daemon's configuration.
#[derive(Debug, Clone)]
pub struct Frr {
    pub daemon_dir: String,
    pub cli_dir: String,
}

/// The mathematical value of a [`Frr`].
pub struct FrrV {
    pub daemon_dir: Seq<char>,
    pub cli_dir: Seq<char>,
}

impl View for Frr {
    type V = FrrV;

    open spec fn view(&self) -> FrrV {
        FrrV { daemon_dir: self.daemon_dir@, cli_dir: self.cli_dir@ }
    }
}

/// The default frr configuration.
pub open spec fn default_frr() -> FrrV {
    FrrV { daemon_dir: "/usr/bin/frrd"@, cli_dir: "/usr/bin/frr-cli"@ }
}

impl Default for Frr {
    /// The default install paths.
    fn default() -> (r: Frr)
        ensures
            r@ == default_frr(),
    {
        Frr {
            daemon_dir: String::from_str("/usr/bin/frrd"),
            cli_dir: String::from_str("/usr/bin/frr-cli"),
        }
    }
}

/// One configured plugin.
#[derive(Debug, Clone)]
pub enum Plugin {
    Holo(Holo),
    Frr(Frr),
}

/// The mathematical value of a [`Plugin`].
pub enum PluginV {
    Holo(HoloV),
    Frr(FrrV),
}

impl View for Plugin {
    type V = PluginV;

    open spec fn view(&self) -> PluginV {
        match self {
            Plugin::Holo(h) => PluginV::Holo(h@),
            Plugin::Frr(f) => PluginV::Frr(f@),
        }
    }
}

impl Plugin {
    /// The default plugin table: each known plugin under its name, with its
    /// default configuration.
    pub fn default_hash() -> (r: Vec<(String, Plugin)>)
        ensures
            r@.len() == 2,
            r@[0].0@ == "frr"@ && r@[0].1@ == PluginV::Frr(default_frr()),
            r@[1].0@ == "holo"@ && r@[1].1@ == PluginV::Holo(default_holo()),
    {
        let mut v: Vec<(String, Plugin)> = Vec::new();
        v.push((String::from_str("frr"), Plugin::Frr(Frr::default())));
        v.push((String::from_str("holo"), Plugin::Holo(Holo::default())));
        v
    }
}

/// The plugins a run will use, in a fixed order: frr first, then holo.
#[derive(Debug, Clone)]
pub struct Config {
    pub plugins: Vec<Plugin>,
}

/// The mathematical value of a [`Config`].
pub struct ConfigV {
    pub plugins: Seq<PluginV>,
}

impl View for Config {
    type V = ConfigV;

    open spec fn view(&self) -> ConfigV {
        ConfigV { plugins: view_seq(self.plugins@) }
    }
}

/// An optional string field of a plugin entry, with its default.
pub open spec fn spec_string_field(
    entries: Seq<(DocNode, DocNode)>,
    key: Seq<char>,
    default: Seq<char>,
    path: Seq<char>,
) -> Result<Seq<char>, ConfigErrorV> {
    match spec_lookup(entries, key) {
        None => Ok(default),
        Some(node) => match node {
            DocNode::Scalar(s) => Ok(s@),
            _ => Err(
                ConfigErrorV::IncorrectType { field: path + "->"@ + key, expected: "string"@ },
            ),
        },
    }
}

/// Parse of a holo entry over the defaults.
pub open spec fn spec_parse_holo(entries: Seq<(DocNode, DocNode)>, path: Seq<char>) -> Result<
    HoloV,
    ConfigErrorV,
> {
    match spec_string_field(entries, "daemon-dir"@, default_holo().daemon_dir, path) {
        Err(e) => Err(e),
        Ok(daemon_dir) => match spec_string_field(entries, "cli-dir"@, default_holo().cli_dir, path) {
            Err(e) => Err(e),
            Ok(cli_dir) => match spec_string_field(
                entries,
                "sysconfdir"@,
                default_holo().sysconfdir,
                path,
            ) {
                Err(e) => Err(e),
                Ok(sysconfdir) => match spec_string_field(
                    entries,
                    "user"@,
                    default_holo().user,
                    path,
                ) {
                    Err(e) => Err(e),
                    Ok(user) => match spec_string_field(
                        entries,
                        "group"@,
                        default_holo().group,
                        path,
                    ) {
                        Err(e) => Err(e),
                        Ok(group) => Ok(HoloV { daemon_dir, cli_dir, sysconfdir, user, group }),
                    },
                },
            },
        },
    }
}

/// Parse of a frr entry over the defaults.
pub open spec fn spec_parse_frr(entries: Seq<(DocNode, DocNode)>, path: Seq<char>) -> Result<
    FrrV,
    ConfigErrorV,
> {
    match spec_string_field(entries, "daemon-dir"@, default_frr().daemon_dir, path) {
        Err(e) => Err(e),
        Ok(daemon_dir) => match spec_string_field(entries, "cli-dir"@, default_frr().cli_dir, path) {
            Err(e) => Err(e),
            Ok(cli_dir) => Ok(FrrV { daemon_dir, cli_dir }),
        },
    }
}

/// Parse of the `plugins` mapping onto the configurations so far: each key
/// names a known plugin whose entry (a mapping, or null for defaults)
/// replaces that plugin's configuration.
pub open spec fn spec_parse_plugins(
    entries: Seq<(DocNode, DocNode)>,
    frr: FrrV,
    holo: HoloV,
) -> Result<(FrrV, HoloV), ConfigErrorV>
    decreases entries.len(),
{
    if entries.len() == 0 {
        Ok((frr, holo))
    } else {
        match entries[0].0 {
            DocNode::Scalar(name) => {
                let sub: Result<Seq<(DocNode, DocNode)>, ConfigErrorV> = match entries[0].1 {
                    DocNode::Mapping(cfg) => Ok(cfg@),
                    DocNode::Null => Ok(Seq::empty()),
                    _ => Err(
                        ConfigErrorV::IncorrectType {
                            field: "plugins"@ + "->"@ + name@,
                            expected: "mapping"@,
                        },
                    ),
                };
                match sub {
                    Err(e) => Err(e),
                    Ok(cfg) => if name@ == "holo"@ {
                        match spec_parse_holo(cfg, "plugins"@ + "->"@ + name@) {
                            Err(e) => Err(e),
                            Ok(h) => spec_parse_plugins(entries.drop_first(), frr, h),
                        }
                    } else if name@ == "frr"@ {
                        match spec_parse_frr(cfg, "plugins"@ + "->"@ + name@) {
                            Err(e) => Err(e),
                            Ok(f) => spec_parse_plugins(entries.drop_first(), f, holo),
                        }
                    } else {
                        Err(
                            ConfigErrorV::IncorrectType {
                                field: "plugins"@ + "->"@ + name@,
                                expected: "holo or frr"@,
                            },
                        )
                    },
                }
            },
            _ => Err(ConfigErrorV::IncorrectType { field: "plugins"@, expected: "string"@ }),
        }
    }
}

/// Parse of one document's `plugins` section onto the configurations so
/// far; a document without one, or one that is not a mapping, changes
/// nothing.
pub open spec fn spec_config_document(doc: DocNode, frr: FrrV, holo: HoloV) -> Result<
    (FrrV, HoloV),
    ConfigErrorV,
> {
    match doc {
        DocNode::Mapping(entries) => match spec_lookup(entries@, "plugins"@) {
            Some(node) => match node {
                DocNode::Mapping(pentries) => spec_parse_plugins(pentries@, frr, holo),
                _ => Ok((frr, holo)),
            },
            None => Ok((frr, holo)),
        },
        _ => Ok((frr, holo)),
    }
}

/// Parse of a whole document set, starting from the defaults.
pub open spec fn spec_parse_config(docs: Seq<DocNode>, frr: FrrV, holo: HoloV) -> Result<
    (FrrV, HoloV),
    ConfigErrorV,
>
    decreases docs.len(),
{
    if docs.len() == 0 {
        Ok((frr, holo))
    } else {
        match spec_config_document(docs[0], frr, holo) {
            Err(e) => Err(e),
            Ok(p) => spec_parse_config(docs.drop_first(), p.0, p.1),
        }
    }
}

/// The configuration a document set parses to, as a plugin list.
pub open spec fn spec_config_view(docs: Seq<DocNode>) -> Result<ConfigV, ConfigErrorV> {
    match spec_parse_config(docs, default_frr(), default_holo()) {
        Err(e) => Err(e),
        Ok(p) => Ok(ConfigV { plugins: seq![PluginV::Frr(p.0), PluginV::Holo(p.1)] }),
    }
}

/// An optional string field of a plugin entry, with its default.
fn string_field(
    entries: &Vec<(DocNode, DocNode)>,
    key: &String,
    default: &str,
    path: &String,
) -> (r: Result<String, ConfigError>)
    ensures
        match r {
            Ok(s) => spec_string_field(entries@, key@, default@, path@) == Ok::<_, ConfigErrorV>(
                s@,
            ),
            Err(e) => spec_string_field(entries@, key@, default@, path@) == Err::<Seq<char>, _>(
                e@,
            ),
        },
{
    match lookup(entries, key) {
        None => Ok(default.to_owned()),
        Some(node) => match node {
            DocNode::Scalar(s) => Ok(s.clone()),
            _ => Err(
                ConfigError::IncorrectType {
                    field: crate::devices::child_path(path, key),
                    expected: String::from_str("string"),
                },
            ),
        },
    }
}

impl Holo {
    /// Parses one holo entry over the defaults.
    fn from_doc(entries: &Vec<(DocNode, DocNode)>, path: &String) -> (r: Result<
        Holo,
        ConfigError,
    >)
        ensures
            res_view(r) == spec_parse_holo(entries@, path@),
    {
        let daemon_dir = match string_field(entries, &String::from_str("daemon-dir"), "/usr/bin/", path) {
            Ok(s) => s,
            Err(e) => {
                return Err(e);
            },
        };
        let cli_dir = match string_field(entries, &String::from_str("cli-dir"), "/usr/bin/", path) {
            Ok(s) => s,
            Err(e) => {
                return Err(e);
            },
        };
        let sysconfdir = match string_field(
            entries,
            &String::from_str("sysconfdir"),
            "/etc/holod",
            path,
        ) {
            Ok(s) => s,
            Err(e) => {
                return Err(e);
            },
        };
        let user = match string_field(entries, &String::from_str("user"), "holo", path) {
            Ok(s) => s,
            Err(e) => {
                return Err(e);
            },
        };
        let group = match string_field(entries, &String::from_str("group"), "holo", path) {
            Ok(s) => s,
            Err(e) => {
                return Err(e);
            },
        };
        Ok(Holo { daemon_dir, cli_dir, sysconfdir, user, group })
    }
}

impl Frr {
    /// Parses one frr entry over the defaults.
    fn from_doc(entries: &Vec<(DocNode, DocNode)>, path: &String) -> (r: Result<Frr, ConfigError>)
        ensures
            res_view(r) == spec_parse_frr(entries@, path@),
    {
        let daemon_dir = match string_field(
            entries,
            &String::from_str("daemon-dir"),
            "/usr/bin/frrd",
            path,
        ) {
            Ok(s) => s,
            Err(e) => {
                return Err(e);
            },
        };
        let cli_dir = match string_field(
            entries,
            &String::from_str("cli-dir"),
            "/usr/bin/frr-cli",
            path,
        ) {
            Ok(s) => s,
            Err(e) => {
                return Err(e);
            },
        };
        Ok(Frr { daemon_dir, cli_dir })
    }
}

impl Config {
    /// Parses the plugin configuration out of a document set: the defaults,
    /// overridden by each document's `plugins` section in order.
    #[verifier::loop_isolation(false)]
    pub fn from_yaml(docs: &Vec<DocNode>) -> (r: Result<Config, ConfigError>)
        ensures
            res_view(r) == spec_config_view(docs@),
    {
        let mut frr = Frr::default();
        let mut holo = Holo::default();
        let n = docs.len();
        let mut i: usize = 0;
        proof {
            assert(docs@.skip(0) =~= docs@);
        }
        while i < n
            invariant
                i <= n,
                n == docs@.len(),
                spec_parse_config(docs@, default_frr(), default_holo()) == spec_parse_config(
                    docs@.skip(i as int),
                    frr@,
                    holo@,
                ),
            decreases n - i,
        {
            proof {
                assert(docs@.skip(i as int)[0] == docs@[i as int]);
                assert(docs@.skip(i as int).drop_first() =~= docs@.skip(i + 1));
            }
            match Self::apply_document(&docs[i], frr, holo) {
                Ok(p) => {
                    frr = p.0;
                    holo = p.1;
                },
                Err(e) => {
                    return Err(e);
                },
            }
            i += 1;
        }
        proof {
            assert(docs@.skip(n as int) =~= Seq::<DocNode>::empty());
        }
        let mut plugins: Vec<Plugin> = Vec::new();
        plugins.push(Plugin::Frr(frr));
        plugins.push(Plugin::Holo(holo));
        let config = Config { plugins };
        proof {
            assert(view_seq(config.plugins@) =~= seq![PluginV::Frr(frr@), PluginV::Holo(holo@)]);
        }
        Ok(config)
    }

    /// Parses the plugin configuration from text.
    pub fn from_yaml_str(yaml_str: &str) -> (r: Result<Config, ConfigError>)
        ensures
            match yaml_documents_of(yaml_str@) {
                None => r matches Err(e) && e@ == ConfigErrorV::YamlSyntax,
                Some(docs) => res_view(r) == spec_config_view(docs),
            },
    {
        match load_yaml_documents(yaml_str) {
            None => Err(ConfigError::YamlSyntax),
            Some(docs) => Config::from_yaml(&docs),
        }
    }

    /// Folds one document's `plugins` section onto the configurations.
    fn apply_document(doc: &DocNode, frr: Frr, holo: Holo) -> (r: Result<(Frr, Holo), ConfigError>)
        ensures
            match r {
                Ok(p) => spec_config_document(*doc, frr@, holo@) == Ok::<_, ConfigErrorV>(
                    (p.0@, p.1@),
                ),
                Err(e) => spec_config_document(*doc, frr@, holo@) == Err::<(FrrV, HoloV), _>(e@),
            },
    {
        let entries = match doc {
            DocNode::Mapping(entries) => entries,
            _ => {
                return Ok((frr, holo));
            },
        };
        let pkey = String::from_str("plugins");
        match lookup(entries, &pkey) {
            Some(node) => match node {
                DocNode::Mapping(pentries) => Self::parse_plugins(pentries, frr, holo),
                _ => Ok((frr, holo)),
            },
            None => Ok((frr, holo)),
        }
    }

    /// Folds the `plugins` mapping onto the configurations.
    #[verifier::loop_isolation(false)]
    fn parse_plugins(entries: &Vec<(DocNode, DocNode)>, frr: Frr, holo: Holo) -> (r: Result<
        (Frr, Holo),
        ConfigError,
    >)
        ensures
            match r {
                Ok(p) => spec_parse_plugins(entries@, frr@, holo@) == Ok::<_, ConfigErrorV>(
                    (p.0@, p.1@),
                ),
                Err(e) => spec_parse_plugins(entries@, frr@, holo@) == Err::<(FrrV, HoloV), _>(e@),
            },
    {
        let mut cur_frr = frr;
        let mut cur_holo = holo;
        let n = entries.len();
        let mut i: usize = 0;
        proof {
            assert(entries@.skip(0) =~= entries@);
        }
        while i < n
            invariant
                i <= n,
                n == entries@.len(),
                spec_parse_plugins(entries@, frr@, holo@) == spec_parse_plugins(
                    entries@.skip(i as int),
                    cur_frr@,
                    cur_holo@,
                ),
            decreases n - i,
        {
            proof {
                assert(entries@.skip(i as int)[0] == entries@[i as int]);
                assert(entries@.skip(i as int).drop_first() =~= entries@.skip(i + 1));
            }
            match &entries[i].0 {
                DocNode::Scalar(name) => {
                    let empty_cfg: Vec<(DocNode, DocNode)> = Vec::new();
                    let cfg: &Vec<(DocNode, DocNode)> = match &entries[i].1 {
                        DocNode::Mapping(cfg) => cfg,
                        DocNode::Null => &empty_cfg,
                        _ => {
                            return Err(
                                ConfigError::IncorrectType {
                                    field: crate::devices::child_path(
                                        &String::from_str("plugins"),
                                        name,
                                    ),
                                    expected: String::from_str("mapping"),
                                },
                            );
                        },
                    };
                    if *name == String::from_str("holo") {
                        let path = crate::devices::child_path(&String::from_str("plugins"), name);
                        match Holo::from_doc(cfg, &path) {
                            Ok(h) => {
                                cur_holo = h;
                            },
                            Err(e) => {
                                return Err(e);
                            },
                        }
                    } else if *name == String::from_str("frr") {
                        let path = crate::devices::child_path(&String::from_str("plugins"), name);
                        match Frr::from_doc(cfg, &path) {
                            Ok(f) => {
                                cur_frr = f;
                            },
                            Err(e) => {
                                return Err(e);
                            },
                        }
                    } else {
                        return Err(
                            ConfigError::IncorrectType {
                                field: crate::devices::child_path(
                                    &String::from_str("plugins"),
                                    name,
                                ),
                                expected: String::from_str("holo or frr"),
                            },
                        );
                    }
                },
                _ => {
                    return Err(
                        ConfigError::IncorrectType {
                            field: String::from_str("plugins"),
                            expected: String::from_str("string"),
                        },
                    );
                },
            }
            i += 1;
        }
        proof {
            assert(entries@.skip(n as int) =~= Seq::<(DocNode, DocNode)>::empty());
        }
        Ok((cur_frr, cur_holo))
    }
}

} // verus!
