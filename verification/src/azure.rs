//! Configuration holders for the remote embedding and chat endpoints. The
//! network calls themselves live in the surrounding application; the
//! builders here only assemble and expose the connection parameters.

use vstd::prelude::*;

verus! {

/// Connection parameters of the remote embedding endpoint.
pub struct AzureEmbedding<'a> {
    pub resource_name: &'a str,
    pub api_version: &'a str,
    pub deployment_id: &'a str,
    pub embed_model: &'a str,
}

impl<'a> AzureEmbedding<'a> {
    pub fn default() -> (r: Self)
        ensures
            r.resource_name@ == ""@,
            r.api_version@ == ""@,
            r.deployment_id@ == ""@,
            r.embed_model@ == ""@,
    {
        Self { resource_name: "", api_version: "", deployment_id: "", embed_model: "" }
    }

    pub fn with_resource_name(self, resource_name: &'a str) -> (r: Self)
        ensures
            r.resource_name == resource_name,
            r.api_version == self.api_version,
            r.deployment_id == self.deployment_id,
            r.embed_model == self.embed_model,
    {
        let mut s = self;
        s.resource_name = resource_name;
        s
    }

    pub fn with_api_version(self, api_version: &'a str) -> (r: Self)
        ensures
            r.resource_name == self.resource_name,
            r.api_version == api_version,
            r.deployment_id == self.deployment_id,
            r.embed_model == self.embed_model,
    {
        let mut s = self;
        s.api_version = api_version;
        s
    }

    pub fn with_deployment_id(self, deployment_id: &'a str) -> (r: Self)
        ensures
            r.resource_name == self.resource_name,
            r.api_version == self.api_version,
            r.deployment_id == deployment_id,
            r.embed_model == self.embed_model,
    {
        let mut s = self;
        s.deployment_id = deployment_id;
        s
    }

    pub fn with_embedding_model(self, embed_model: &'a str) -> (r: Self)
        ensures
            r.resource_name == self.resource_name,
            r.api_version == self.api_version,
            r.deployment_id == self.deployment_id,
            r.embed_model == embed_model,
    {
        let mut s = self;
        s.embed_model = embed_model;
        s
    }




}

/// Connection parameters of the remote chat-completion endpoint.
pub struct AzureAI<'a> {
    pub resource_name: &'a str,
    pub api_version: &'a str,
    pub deployment_id: &'a str,
    pub inf_model: &'a str,
    pub max_token: u16,
}

impl<'a> AzureAI<'a> {
    pub fn new(
        resource_name: &'a str,
        api_version: &'a str,
        deployment_id: &'a str,
        inf_model: &'a str,
        max_token: u16,
    ) -> (r: Self)
        ensures
            r.resource_name == resource_name,
            r.api_version == api_version,
            r.deployment_id == deployment_id,
            r.inf_model == inf_model,
            r.max_token == max_token,
    {
        Self { resource_name, api_version, deployment_id, inf_model, max_token }
    }





}

} // verus!
