//! The configuration the webhook consults before submitting a deployment:
//! which config file holds the services, and how a request's service label
//! resolves to the service to update. Reading and decoding the file is the
//! caller's job; the types here carry its plain values.

use vstd::prelude::*;
use vstd::string::StringExecFns;

verus! {

/// The available config files.
#[non_exhaustive]
#[derive(Debug, Clone, Copy, PartialEq, Eq, Hash)]
pub enum ConfigFile {
    /// The services to update.
    Services,
}

impl ConfigFile {
    /// The file name of the config file.
    pub open spec fn spec_file_name(self) -> Seq<char> {
        match self {
            ConfigFile::Services => "services.toml"@,
        }
    }

    /// The file name of the config file.
    pub fn file_name(&self) -> (r: &'static str)
        ensures
            r@ == self.spec_file_name(),
    {
        match self {
            ConfigFile::Services => "services.toml",
        }
    }

    /// The path to the config file under the given configuration
    /// directory.
    pub fn path(&self, config_dir: &str) -> (r: String)
        ensures
            r@ == config_dir@ + "/"@ + self.spec_file_name(),
    {
        let mut s: String = config_dir.to_owned();
        s.append("/");
        s.append(self.file_name());
        s
    }
}

/// Configs that can be read from a config file.
pub trait Config {
    /// The config file this config corresponds to.
    fn file() -> ConfigFile;
}

/// Defines a service to update.
#[derive(Debug, Clone, PartialEq, Eq, Hash)]
pub struct ServiceConfig {
    /// An optional name for the service, for easier identification.
    pub name: Option<String>,
    /// The label of the service, identifying the target of update
    /// requests. Must be unique among all services.
    pub service_label: String,
    /// The container name of the service. Must match the actual container
    /// name.
    pub container_name: String,
    /// The image to update the service from.
    pub image: String,
}

/// Defines the services related to updates.
#[derive(Debug, Clone, PartialEq, Eq, Hash)]
pub struct ServicesConfig {
    /// The list of services to update.
    pub services: Vec<ServiceConfig>,
}

impl ServicesConfig {
    /// Whether any service carries the given label.
    pub open spec fn has_label(self, label: Seq<char>) -> bool {
        exists|i: int|
            0 <= i < self.services@.len() && (#[trigger] self.services@[i]).service_label@
                == label
    }

    /// Resolves a request's service label to its service, scanning in
    /// order. `None` exactly when no service carries the label; a lookup
    /// miss is the caller's error and never reaches the queue.
    pub fn find_service(&self, label: &String) -> (r: Option<&ServiceConfig>)
        ensures
            match r {
                Some(s) => exists|i: int|
                    0 <= i < self.services@.len() && (#[trigger] self.services@[i]) == *s
                        && self.services@[i].service_label@ == label@ && (forall|j: int|
                        0 <= j < i ==> (#[trigger] self.services@[j]).service_label@ != label@),
                None => !self.has_label(label@),
            },
    {
        let n: usize = self.services.len();
        let mut i: usize = 0;
        while i < n
            invariant
                n == self.services@.len(),
                i <= n,
                forall|j: int|
                    0 <= j < i ==> (#[trigger] self.services@[j]).service_label@ != label@,
            decreases n - i,
        {
            if self.services[i].service_label == *label {
                return Some(&self.services[i]);
            }
            i += 1;
        }
        None
    }
}

impl Config for ServicesConfig {
    fn file() -> ConfigFile {
        ConfigFile::Services
    }
}

/// The payload of an update request: the label of the service to update.
#[derive(Debug, Clone, PartialEq, Eq, Hash)]
pub struct PostPayload {
    /// The label of the service to update.
    pub service_label: String,
}

} // verus!
