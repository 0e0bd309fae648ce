//! Spoolman: when and where the front end asks for the active spools.
use vstd::prelude::*;

use crate::text::concat;

verus! {

/// Where Spoolman is, and whether it is asked at all.
pub struct SpoolmanClient {
    pub enabled: bool,
    pub base_url: String,
}

impl SpoolmanClient {
    pub fn new(enabled: bool, base_url: String) -> (res: SpoolmanClient)
        ensures
            res.enabled == enabled,
            res.base_url@ == base_url@,
    {
        SpoolmanClient { enabled, base_url }
    }

    /// The URL that lists the spools, or `None` where Spoolman is disabled
    /// (then no request is made and the list is empty).
    pub fn spools_url(&self) -> (res: Option<String>)
        ensures
            match res {
                Some(u) => self.enabled && u@ == self.base_url@ + "/api/v1/spool"@,
                None => !self.enabled,
            },
    {
        if !self.enabled {
            None
        } else {
            Some(concat(self.base_url.as_str(), "/api/v1/spool"))
        }
    }

    /// Whether a reply with HTTP status `code` carries the spools: a success
    /// status (200 to 299); any other reply gives an empty list.
    pub fn reply_has_spools(code: u16) -> (res: bool)
        ensures
            res == (200 <= code && code <= 299),
    {
        200 <= code && code <= 299
    }
}

} // verus!
