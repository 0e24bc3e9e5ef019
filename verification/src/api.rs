//! Where the model server is reached, and what it says of its models.

use vstd::prelude::*;
use vstd::string::*;

verus! {

/// The port on which the model server listens unless told otherwise.
pub const DEFAULT_PORT: u16 = 11434;

/// Host and port of a model server.
#[derive(Debug, Clone)]
pub struct OllamaConfig {
    pub host: String,
    pub port: u16,
}

impl OllamaConfig {
    /// The server on this machine, at `port`.
    pub fn localhost(port: u16) -> (r: Self)
        ensures
            r.host@ == "localhost"@,
            r.port == port,
    {
        Self { host: "localhost".to_owned(), port }
    }

    /// The address under which the server answers over HTTP, without the port.
    pub fn base_url(&self) -> (r: String)
        ensures
            r@ == "http://"@ + self.host@,
    {
        let mut url = "http://".to_owned();
        url.append(self.host.as_str());
        url
    }
}

/// A model that the server holds, as the server describes it.
#[derive(Debug, Clone)]
pub struct LocalModel {
    pub name: String,
    pub modified_at: String,
    pub size: u64,
}

impl LocalModel {
    /// The name under which the server knows the model.
    pub fn name(&self) -> (r: &String)
        ensures
            r == &self.name,
    {
        &self.name
    }

    /// The name of the model, which is how it is shown.
    pub fn label(&self) -> (r: String)
        ensures
            r@ == self.name@,
    {
        self.name.clone()
    }
}

/// The two describe the same model: name, time of change and size agree.
pub open spec fn same_model(a: LocalModel, b: LocalModel) -> bool {
    a.name@ == b.name@ && a.modified_at@ == b.modified_at@ && a.size == b.size
}

impl PartialEq for LocalModel {
    /// Two descriptions are of the same model when name, time of change and
    /// size agree.
    fn eq(&self, other: &Self) -> (r: bool) {
        self.name == other.name && self.modified_at == other.modified_at && self.size == other.size
    }
}

impl vstd::std_specs::cmp::PartialEqSpecImpl for LocalModel {
    open spec fn obeys_eq_spec() -> bool {
        true
    }

    open spec fn eq_spec(&self, other: &Self) -> bool {
        same_model(*self, *other)
    }
}

impl Eq for LocalModel {

}

/// The server could not be reached.
pub struct ConnectionFailed;

/// What the background worker is asked to do.
pub enum WorkerInput {
    /// Watch the server at this address and report its models.
    Monitor(OllamaConfig),
}

} // verus!
