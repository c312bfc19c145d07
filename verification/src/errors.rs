//! The error families of the library.
//!
//! Three orthogonal families: configuration errors found while parsing and
//! validating a topology document, namespace errors from the holder-process
//! and bind-mount machinery, and link errors from the routing-netlink
//! operations. A top-level `Error` joins them and carries the one condition
//! outside the families: a concurrent instance already holds the state root.

use vstd::prelude::*;

verus! {

/// An error found while parsing and validating a topology document.
/// Each variant carries the offending field path or name.
#[derive(Debug, Clone, PartialEq, Eq)]
pub enum ConfigError {
    /// The topology file could not be read.
    TopologyFileMissing,
    /// The same undirected endpoint pair appears in two links; the fields
    /// are the two endpoints as `device:iface` strings.
    DuplicateLink { src: String, dst: String },
    /// A node name is declared more than once.
    DuplicateNode { name: String },
    /// A value in the document has the wrong kind.
    IncorrectType { field: String, expected: String },
    /// A required field is absent.
    MissingField { field: String },
    /// A link endpoint references a node that does not exist.
    UnknownNode { name: String },
    /// The underlying tokenizer rejected the document.
    YamlSyntax,
    /// An address does not parse as a CIDR of the declared family; `source`
    /// is the owning node.
    InvalidAddress { family: String, address: String, interface: String, source: String },
}

/// The mathematical value of a [`ConfigError`]: the same variants over
/// character sequences.
pub enum ConfigErrorV {
    TopologyFileMissing,
    DuplicateLink { src: Seq<char>, dst: Seq<char> },
    DuplicateNode { name: Seq<char> },
    IncorrectType { field: Seq<char>, expected: Seq<char> },
    MissingField { field: Seq<char> },
    UnknownNode { name: Seq<char> },
    YamlSyntax,
    InvalidAddress { family: Seq<char>, address: Seq<char>, interface: Seq<char>, source: Seq<char> },
}

impl View for ConfigError {
    type V = ConfigErrorV;

    open spec fn view(&self) -> ConfigErrorV {
        match self {
            ConfigError::TopologyFileMissing => ConfigErrorV::TopologyFileMissing,
            ConfigError::DuplicateLink { src, dst } => ConfigErrorV::DuplicateLink {
                src: src@,
                dst: dst@,
            },
            ConfigError::DuplicateNode { name } => ConfigErrorV::DuplicateNode { name: name@ },
            ConfigError::IncorrectType { field, expected } => ConfigErrorV::IncorrectType {
                field: field@,
                expected: expected@,
            },
            ConfigError::MissingField { field } => ConfigErrorV::MissingField { field: field@ },
            ConfigError::UnknownNode { name } => ConfigErrorV::UnknownNode { name: name@ },
            ConfigError::YamlSyntax => ConfigErrorV::YamlSyntax,
            ConfigError::InvalidAddress { family, address, interface, source } => {
                ConfigErrorV::InvalidAddress {
                    family: family@,
                    address: address@,
                    interface: interface@,
                    source: source@,
                }
            },
        }
    }
}

/// An error from namespace creation, entry, or teardown.
#[derive(Debug, Clone, PartialEq, Eq)]
pub enum NamespaceError {
    PathCreation { path: String },
    Mount { path: String },
    Unmount { path: String },
    Entry { device: String },
    ReturnToMain,
    NotFound { device: String },
    MainNotFound,
    Fork { fork_function: String },
    Unshare,
    FileOpen { path: String },
}

/// An error from a routing-netlink operation.
#[derive(Debug, Clone, PartialEq, Eq)]
pub enum LinkError {
    NoInterface { name: String },
    AddressAdd { interface: String },
    ChangeStateUp { interface: String },
    ConnectionFailed,
    ExecuteFailed { operation: String },
}

/// The mathematical value of a [`NamespaceError`].
pub enum NamespaceErrorV {
    PathCreation { path: Seq<char> },
    Mount { path: Seq<char> },
    Unmount { path: Seq<char> },
    Entry { device: Seq<char> },
    ReturnToMain,
    NotFound { device: Seq<char> },
    MainNotFound,
    Fork { fork_function: Seq<char> },
    Unshare,
    FileOpen { path: Seq<char> },
}

impl View for NamespaceError {
    type V = NamespaceErrorV;

    open spec fn view(&self) -> NamespaceErrorV {
        match self {
            NamespaceError::PathCreation { path } => NamespaceErrorV::PathCreation { path: path@ },
            NamespaceError::Mount { path } => NamespaceErrorV::Mount { path: path@ },
            NamespaceError::Unmount { path } => NamespaceErrorV::Unmount { path: path@ },
            NamespaceError::Entry { device } => NamespaceErrorV::Entry { device: device@ },
            NamespaceError::ReturnToMain => NamespaceErrorV::ReturnToMain,
            NamespaceError::NotFound { device } => NamespaceErrorV::NotFound { device: device@ },
            NamespaceError::MainNotFound => NamespaceErrorV::MainNotFound,
            NamespaceError::Fork { fork_function } => NamespaceErrorV::Fork {
                fork_function: fork_function@,
            },
            NamespaceError::Unshare => NamespaceErrorV::Unshare,
            NamespaceError::FileOpen { path } => NamespaceErrorV::FileOpen { path: path@ },
        }
    }
}

/// The mathematical value of a [`LinkError`].
pub enum LinkErrorV {
    NoInterface { name: Seq<char> },
    AddressAdd { interface: Seq<char> },
    ChangeStateUp { interface: Seq<char> },
    ConnectionFailed,
    ExecuteFailed { operation: Seq<char> },
}

impl View for LinkError {
    type V = LinkErrorV;

    open spec fn view(&self) -> LinkErrorV {
        match self {
            LinkError::NoInterface { name } => LinkErrorV::NoInterface { name: name@ },
            LinkError::AddressAdd { interface } => LinkErrorV::AddressAdd {
                interface: interface@,
            },
            LinkError::ChangeStateUp { interface } => LinkErrorV::ChangeStateUp {
                interface: interface@,
            },
            LinkError::ConnectionFailed => LinkErrorV::ConnectionFailed,
            LinkError::ExecuteFailed { operation } => LinkErrorV::ExecuteFailed {
                operation: operation@,
            },
        }
    }
}

/// Any error of the library, joined with the concurrent-instance guard.
#[derive(Debug, Clone, PartialEq, Eq)]
pub enum Error {
    Config(ConfigError),
    Namespace(NamespaceError),
    Link(LinkError),
    /// Another instance is running: the main pid file already exists.
    ConcurrentInstance,
}

/// The mathematical value of an [`Error`].
pub enum ErrorV {
    Config(ConfigErrorV),
    Namespace(NamespaceErrorV),
    Link(LinkErrorV),
    ConcurrentInstance,
}

impl View for Error {
    type V = ErrorV;

    open spec fn view(&self) -> ErrorV {
        match self {
            Error::Config(e) => ErrorV::Config(e@),
            Error::Namespace(e) => ErrorV::Namespace(e@),
            Error::Link(e) => ErrorV::Link(e@),
            Error::ConcurrentInstance => ErrorV::ConcurrentInstance,
        }
    }
}

impl Error {
    /// The process exit code mapped to this error: configuration errors
    /// exit 1, runtime (namespace or link) errors exit 2, and a concurrent
    /// instance exits 3.
    pub fn exit_code(&self) -> (code: u8)
        ensures
            code == self.spec_exit_code(),
            1 <= code <= 3,
    {
        match self {
            Error::Config(_) => 1,
            Error::Namespace(_) => 2,
            Error::Link(_) => 2,
            Error::ConcurrentInstance => 3,
        }
    }

    /// The exit code of this error as a mathematical value.
    pub open spec fn spec_exit_code(&self) -> u8 {
        match self {
            Error::Config(_) => 1,
            Error::Namespace(_) => 2,
            Error::Link(_) => 2,
            Error::ConcurrentInstance => 3,
        }
    }
}

} // verus!
