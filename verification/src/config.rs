//! The configuration of one update or install run.

use vstd::prelude::*;

use crate::error::UpdateError;

verus! {

/// Immutable during a run. `pack_store` is the root directory under which
/// all descriptors, archives and the index database live; `vidx_list` is the
/// path of the newline-delimited file of vendor-index URLs.
#[derive(Debug)]
pub struct Config {
    pub pack_store: String,
    pub vidx_list: String,
}

/// Builds a [`Config`] from optional inputs, as they arrive over the foreign
/// interface. A caller that wants defaults supplies them before building.
pub struct ConfigBuilder {
    pub pack_store: Option<String>,
    pub vidx_list: Option<String>,
}

impl ConfigBuilder {
    /// An empty builder: no field set yet.
    pub fn new() -> (r: ConfigBuilder)
        ensures
            r.pack_store is None,
            r.vidx_list is None,
    {
        ConfigBuilder { pack_store: None, vidx_list: None }
    }

    /// Sets the pack-store root, replacing any earlier value.
    pub fn with_pack_store(self, pack_store: String) -> (r: ConfigBuilder)
        ensures
            r.pack_store == Some(pack_store),
            r.vidx_list == self.vidx_list,
    {
        ConfigBuilder { pack_store: Some(pack_store), vidx_list: self.vidx_list }
    }

    /// Sets the vendor-index list path, replacing any earlier value.
    pub fn with_vidx_list(self, vidx_list: String) -> (r: ConfigBuilder)
        ensures
            r.vidx_list == Some(vidx_list),
            r.pack_store == self.pack_store,
    {
        ConfigBuilder { pack_store: self.pack_store, vidx_list: Some(vidx_list) }
    }

    /// Builds the configuration. Succeeds exactly when both fields were set;
    /// otherwise the run cannot start and `ConfigInvalid` is returned.
    pub fn build(self) -> (r: Result<Config, UpdateError>)
        ensures
            match r {
                Ok(c) => {
                    &&& self.pack_store == Some(c.pack_store)
                    &&& self.vidx_list == Some(c.vidx_list)
                },
                Err(e) => {
                    &&& e == UpdateError::ConfigInvalid
                    &&& (self.pack_store is None || self.vidx_list is None)
                },
            },
    {
        match (self.pack_store, self.vidx_list) {
            (Some(pack_store), Some(vidx_list)) => Ok(Config { pack_store, vidx_list }),
            _ => Err(UpdateError::ConfigInvalid),
        }
    }
}

} // verus!
