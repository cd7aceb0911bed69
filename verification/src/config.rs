//! The settings the service is started with.

use vstd::prelude::*;

verus! {

/// The settings the service is started with.
#[derive(Debug)]
pub struct HiveMindConfig {
    pub listen_addr: String,
    pub rtdb_url: String,
    pub llm_provider: String,
    pub llm_api_key: Option<String>,
    pub llm_model: String,
    pub embedding_model: String,
    pub embedding_api_key: Option<String>,
    pub data_dir: String,
}

impl Clone for HiveMindConfig {
    fn clone(&self) -> (out: Self)
        ensures
            out == *self,
    {
        HiveMindConfig {
            listen_addr: self.listen_addr.clone(),
            rtdb_url: self.rtdb_url.clone(),
            llm_provider: self.llm_provider.clone(),
            llm_api_key: crate::text::copy_opt_text(&self.llm_api_key),
            llm_model: self.llm_model.clone(),
            embedding_model: self.embedding_model.clone(),
            embedding_api_key: crate::text::copy_opt_text(&self.embedding_api_key),
            data_dir: self.data_dir.clone(),
        }
    }
}

} // verus!
