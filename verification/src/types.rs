//! The vocabulary shared by configuration, wiring and backends.

use vstd::prelude::*;
use vstd::string::*;
use crate::text::str_equal;

verus! {

/// Identifies one stored artifact.
#[derive(Debug, Clone, PartialEq, Eq, Hash)]
pub struct ArtifactId {
    pub namespace: Option<String>,
    pub name: String,
    pub version: String,
}

/// An artifact id as a value: namespace, name and version as texts.
pub struct ArtifactIdView {
    pub namespace: Option<Seq<char>>,
    pub name: Seq<char>,
    pub version: Seq<char>,
}

impl View for ArtifactId {
    type V = ArtifactIdView;

    open spec fn view(&self) -> ArtifactIdView {
        ArtifactIdView {
            namespace: match self.namespace {
                Some(ns) => Some(ns@),
                None => None,
            },
            name: self.name@,
            version: self.version@,
        }
    }
}

impl ArtifactId {
    /// Whether two ids name the same artifact: all three fields agree.
    pub fn same_as(&self, other: &ArtifactId) -> (same: bool)
        ensures
            same == (self@ == other@),
    {
        let namespaces: bool = match (&self.namespace, &other.namespace) {
            (Some(a), Some(b)) => str_equal(a.as_str(), b.as_str()),
            (None, None) => true,
            _ => false,
        };
        namespaces && str_equal(self.name.as_str(), other.name.as_str()) && str_equal(
            self.version.as_str(),
            other.version.as_str(),
        )
    }

    /// A copy of the id.
    pub fn duplicate(&self) -> (copy: ArtifactId)
        ensures
            copy@ == self@,
    {
        ArtifactId {
            namespace: match &self.namespace {
                Some(ns) => Some(ns.clone()),
                None => None,
            },
            name: self.name.clone(),
            version: self.version.clone(),
        }
    }
}

/// The package ecosystems a repository can emulate.
#[derive(Debug, Clone, Copy, PartialEq, Eq, Hash, Structural)]
pub enum ArtifactFormat {
    Maven3,
    Pip,
    Rust,
    Raw,
}

/// The storage technologies a storage endpoint can use.
#[derive(Debug, Clone, Copy, PartialEq, Eq, Hash, Structural)]
pub enum StorageType {
    Znippy,
    Rocksdb,
}

/// Where a storage endpoint keeps its data.
#[derive(Debug, Clone, Copy, PartialEq, Eq, Hash, Structural)]
pub enum StorageLocation {
    Local,
    S3,
}

/// The repository kinds a configuration can ask for.
#[derive(Debug, Clone, Copy, PartialEq, Eq, Hash, Structural)]
pub enum RepositoryType {
    Rust,
    Pip,
    Maven3,
    Raw,
}

impl ArtifactFormat {
    /// The name of the format, as it is written in messages.
    pub open spec fn spec_name(self) -> Seq<char> {
        match self {
            ArtifactFormat::Maven3 => "Maven3"@,
            ArtifactFormat::Pip => "Pip"@,
            ArtifactFormat::Rust => "Rust"@,
            ArtifactFormat::Raw => "Raw"@,
        }
    }

    /// The name of the format, as it is written in messages.
    pub fn name(&self) -> (name: &'static str)
        ensures
            name@ == self.spec_name(),
    {
        match self {
            ArtifactFormat::Maven3 => "Maven3",
            ArtifactFormat::Pip => "Pip",
            ArtifactFormat::Rust => "Rust",
            ArtifactFormat::Raw => "Raw",
        }
    }
}

impl StorageType {
    /// The name of the technology, as a configuration writes it.
    pub open spec fn spec_name(self) -> Seq<char> {
        match self {
            StorageType::Znippy => "znippy"@,
            StorageType::Rocksdb => "rocksdb"@,
        }
    }

    /// The name of the technology, as a configuration writes it.
    pub fn name(&self) -> (name: &'static str)
        ensures
            name@ == self.spec_name(),
    {
        match self {
            StorageType::Znippy => "znippy",
            StorageType::Rocksdb => "rocksdb",
        }
    }

    /// The technology that a configuration names, if it names one.
    pub fn from_name(name: &str) -> (ty: Option<StorageType>)
        ensures
            match ty {
                Some(ty) => name@ == ty.spec_name(),
                None => name@ != "znippy"@ && name@ != "rocksdb"@,
            },
    {
        if str_equal(name, "znippy") {
            Some(StorageType::Znippy)
        } else if str_equal(name, "rocksdb") {
            Some(StorageType::Rocksdb)
        } else {
            None
        }
    }
}

impl RepositoryType {
    /// The name of the kind: the path segment under which its repositories
    /// are exposed, and the word by which a configuration asks for it.
    pub open spec fn spec_endpoint_name(self) -> Seq<char> {
        match self {
            RepositoryType::Rust => "rust"@,
            RepositoryType::Pip => "pip"@,
            RepositoryType::Maven3 => "maven3"@,
            RepositoryType::Raw => "raw"@,
        }
    }

    /// The kind that a configuration asks for, if the word names one.
    pub fn from_name(name: &str) -> (ty: Option<RepositoryType>)
        ensures
            match ty {
                Some(ty) => name@ == ty.spec_endpoint_name(),
                None => name@ != "rust"@ && name@ != "pip"@ && name@ != "maven3"@ && name@ != "raw"@,
            },
    {
        if str_equal(name, "rust") {
            Some(RepositoryType::Rust)
        } else if str_equal(name, "pip") {
            Some(RepositoryType::Pip)
        } else if str_equal(name, "maven3") {
            Some(RepositoryType::Maven3)
        } else if str_equal(name, "raw") {
            Some(RepositoryType::Raw)
        } else {
            None
        }
    }

    /// The path segment under which repositories of this kind are exposed.
    pub fn endpoint_name(&self) -> (name: &'static str)
        ensures
            name@ == self.spec_endpoint_name(),
    {
        match self {
            RepositoryType::Rust => "rust",
            RepositoryType::Pip => "pip",
            RepositoryType::Maven3 => "maven3",
            RepositoryType::Raw => "raw",
        }
    }

    /// The artifact format that repositories of this kind serve.
    pub open spec fn spec_format(self) -> ArtifactFormat {
        match self {
            RepositoryType::Rust => ArtifactFormat::Rust,
            RepositoryType::Pip => ArtifactFormat::Pip,
            RepositoryType::Maven3 => ArtifactFormat::Maven3,
            RepositoryType::Raw => ArtifactFormat::Raw,
        }
    }

    /// The artifact format that repositories of this kind serve.
    pub fn format(&self) -> (format: ArtifactFormat)
        ensures
            format == self.spec_format(),
    {
        match self {
            RepositoryType::Rust => ArtifactFormat::Rust,
            RepositoryType::Pip => ArtifactFormat::Pip,
            RepositoryType::Maven3 => ArtifactFormat::Maven3,
            RepositoryType::Raw => ArtifactFormat::Raw,
        }
    }
}

/// A storage endpoint as the configuration declares it.
#[derive(Debug, Clone)]
pub struct StorageEndpoint {
    pub name: String,
    pub ty: StorageType,
    pub location: StorageLocation,
    pub path: String,
}

/// An exposed endpoint as the configuration declares it: a name, a URL prefix
/// of the form `scheme://host[:port]/`, and the paths of a certificate and of
/// a private key.
#[derive(Debug, Clone)]
pub struct ExposedEndpoint {
    pub name: String,
    pub url_prefix: String,
    pub cert: String,
    pub key: String,
}

/// One direction of a repository: the storage endpoint it uses and the
/// exposed endpoint it is reached through, both by name.
#[derive(Debug, Clone)]
pub struct InOut {
    pub storage_backend: String,
    pub exposed_endpoint: String,
}

/// A repository as the configuration declares it.
#[derive(Debug, Clone)]
pub struct Repository {
    pub name: String,
    pub ty: RepositoryType,
    pub in_: Option<InOut>,
    pub out: Option<InOut>,
    pub upstreams: Vec<String>,
}

/// A whole configuration: three lists of declarations.
#[derive(Debug, Clone)]
pub struct HolgerConfig {
    pub exposed_endpoints: Vec<ExposedEndpoint>,
    pub storage_endpoints: Vec<StorageEndpoint>,
    pub repositories: Vec<Repository>,
}

} // verus!
