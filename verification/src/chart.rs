use crate::errors::{UorError, UorResult};
use vstd::prelude::*;

verus! {

/// A serialized domain schema: a name, a version identifier, and a raw JSON
/// payload. Schema semantics are an upstream concern; the core only stores
/// the triple and rejects an empty payload.
#[derive(Debug)]
pub struct Chart {
    pub name: String,
    pub version: String,
    pub raw_json: String,
}

impl Clone for Chart {
    fn clone(&self) -> (r: Self)
        ensures
            r == *self,
    {
        Chart {
            name: self.name.clone(),
            version: self.version.clone(),
            raw_json: self.raw_json.clone(),
        }
    }
}

impl Chart {
    /// Constructs a new `Chart` from raw JSON data. Empty JSON is rejected
    /// with a `ChartError`; any non-empty payload is stored unchanged.
    pub fn from_json(name: &str, version: &str, json_data: &str) -> (r: UorResult<Self>)
        ensures
            json_data@.len() == 0 ==> (r matches Err(e) && e matches UorError::ChartError(m)
                && m@ == "Provided JSON for Chart is empty."@),
            json_data@.len() > 0 ==> (r matches Ok(c) && c.name@ == name@
                && c.version@ == version@ && c.raw_json@ == json_data@),
    {
        if json_data.is_empty() {
            return Err(UorError::ChartError("Provided JSON for Chart is empty.".to_owned()));
        }
        Ok(Chart {
            name: name.to_owned(),
            version: version.to_owned(),
            raw_json: json_data.to_owned(),
        })
    }

    /// Validation stub: schema-specific checks are the chart-building
    /// collaborator's concern, so this always succeeds.
    pub fn parse(&self) -> (r: UorResult<()>)
        ensures
            r is Ok,
    {
        Ok(())
    }
}

} // verus!
