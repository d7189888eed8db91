//! Service configuration: the listening address and the named directories
//! ("contexts") that the service exposes.

use std::collections::HashMap;
use vstd::prelude::*;
use vstd::string::*;

use crate::text::same_text;

verus! {

/// Where the HTTP server listens.
#[derive(Debug, Clone)]
pub struct ServerConfig {
    pub host: String,
    pub port: u16,
}

/// One exposed directory: its name in URLs, its path on disk, a description,
/// the shell that its terminals run and extra environment for that shell.
#[derive(Debug, Clone)]
pub struct ContextConfig {
    pub name: String,
    pub path: String,
    pub description: String,
    pub command: String,
    pub env: HashMap<String, String>,
}

/// The whole configuration.
#[derive(Debug, Clone)]
pub struct Config {
    pub server: ServerConfig,
    pub contexts: Vec<ContextConfig>,
}

/// The host the server listens on when none is configured.
pub fn default_host() -> (host: String)
    ensures
        host@ == "127.0.0.1"@,
{
    String::from_str("127.0.0.1")
}

/// The port the server listens on when none is configured.
pub fn default_port() -> (port: u16)
    ensures
        port == 8080,
{
    8080
}

/// The shell a context's terminals run when none is configured.
pub fn default_command() -> (command: String)
    ensures
        command@ == "/bin/bash"@,
{
    String::from_str("/bin/bash")
}

impl Default for ServerConfig {
    fn default() -> (config: Self)
        ensures
            config.host@ == "127.0.0.1"@,
            config.port == 8080,
    {
        ServerConfig { host: default_host(), port: default_port() }
    }
}

impl Default for Config {
    fn default() -> (config: Self)
        ensures
            config.server.host@ == "127.0.0.1"@,
            config.server.port == 8080,
            config.contexts@.len() == 0,
    {
        Config { server: ServerConfig::default(), contexts: Vec::new() }
    }
}

/// The fields of a context that the context listing shows.
#[derive(Debug, Clone, PartialEq, Eq)]
pub struct ContextSummary {
    pub name: String,
    pub path: String,
    pub description: String,
}

impl Config {
    /// The first context whose name is `name`.
    pub fn get_context(&self, name: &str) -> (found: Option<&ContextConfig>)
        ensures
            found is Some <==> exists|i: int|
                0 <= i < self.contexts@.len() && self.contexts@[i].name@ == name@,
            found matches Some(c) ==> exists|i: int|
                0 <= i < self.contexts@.len() && self.contexts@[i] == *c && c.name@ == name@
                    && forall|j: int| 0 <= j < i ==> self.contexts@[j].name@ != name@,
    {
        let mut i: usize = 0;
        while i < self.contexts.len()
            invariant
                i <= self.contexts@.len(),
                forall|j: int| 0 <= j < i ==> self.contexts@[j].name@ != name@,
            decreases self.contexts.len() - i,
        {
            if same_text(self.contexts[i].name.as_str(), name) {
                return Some(&self.contexts[i]);
            }
            i = i + 1;
        }
        None
    }

    /// Name, path and description of every context, in configuration order.
    pub fn context_summaries(&self) -> (list: Vec<ContextSummary>)
        ensures
            list@.len() == self.contexts@.len(),
            forall|i: int|
                0 <= i < list@.len() ==> {
                    &&& #[trigger] list@[i].name@ == self.contexts@[i].name@
                    &&& list@[i].path@ == self.contexts@[i].path@
                    &&& list@[i].description@ == self.contexts@[i].description@
                },
    {
        let mut list: Vec<ContextSummary> = Vec::new();
        let mut i: usize = 0;
        while i < self.contexts.len()
            invariant
                i <= self.contexts@.len(),
                list@.len() == i,
                forall|k: int|
                    0 <= k < i ==> {
                        &&& #[trigger] list@[k].name@ == self.contexts@[k].name@
                        &&& list@[k].path@ == self.contexts@[k].path@
                        &&& list@[k].description@ == self.contexts@[k].description@
                    },
            decreases self.contexts.len() - i,
        {
            let c = &self.contexts[i];
            list.push(
                ContextSummary {
                    name: c.name.clone(),
                    path: c.path.clone(),
                    description: c.description.clone(),
                },
            );
            i = i + 1;
        }
        list
    }
}

} // verus!
