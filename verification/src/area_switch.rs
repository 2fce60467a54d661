//! In-app "load another prepared area" request handling.

use vstd::prelude::*;

use crate::text::{trim_string, trimmed};

verus! {

/// Settings-panel state for switching to another prepared area at runtime.
#[derive(Clone, Debug)]
pub struct AreaSwitchState {
    pub input_path: String,
    pub srtm_dir: String,
    pub status: String,
    pub request_load: bool,
}

impl Default for AreaSwitchState {
    /// Empty fields and no pending request.
    fn default() -> (r: Self)
        ensures
            r.input_path@.len() == 0,
            r.srtm_dir@.len() == 0,
            r.status@.len() == 0,
            !r.request_load,
    {
        AreaSwitchState {
            input_path: String::new(),
            srtm_dir: String::new(),
            status: String::new(),
            request_load: false,
        }
    }
}

/// A validated request to load a prepared area: trimmed paths, with an empty
/// SRTM directory meaning "no elevation".
#[derive(Clone, Debug, PartialEq, Eq)]
pub struct AreaSwitchRequest {
    pub input_path: String,
    pub srtm_dir: Option<String>,
}

/// Status message shown when a load is requested with an empty path.
pub open spec fn empty_path_status() -> Seq<char> {
    "Enter a prepared .osm path before loading."@
}

/// The trimmed text, or `None` when nothing but whitespace remains.
pub open spec fn nonblank_trimmed(s: Seq<char>) -> Option<Seq<char>> {
    if trimmed(s).len() == 0 {
        None
    } else {
        Some(trimmed(s))
    }
}

/// The characters of an optional string.
pub open spec fn view_opt(o: Option<String>) -> Option<Seq<char>> {
    match o {
        Some(s) => Some(s@),
        None => None,
    }
}

impl AreaSwitchState {
    /// Consumes a pending load request. Returns `None` when no load was
    /// requested, or when the trimmed input path is empty (then the status
    /// explains why). Otherwise returns the trimmed input path and the trimmed
    /// SRTM directory, `None` when that is blank.
    pub fn take_request(&mut self) -> (r: Option<AreaSwitchRequest>)
        ensures
            !old(self).request_load ==> r is None && *final(self) == *old(self),
            old(self).request_load ==> {
                &&& !final(self).request_load
                &&& final(self).input_path == old(self).input_path
                &&& final(self).srtm_dir == old(self).srtm_dir
                &&& trimmed(old(self).input_path@).len() == 0 ==> {
                    &&& r is None
                    &&& final(self).status@ == empty_path_status()
                }
                &&& trimmed(old(self).input_path@).len() > 0 ==> {
                    &&& final(self).status == old(self).status
                    &&& r is Some
                    &&& r->0.input_path@ == trimmed(old(self).input_path@)
                    &&& view_opt(r->0.srtm_dir) == nonblank_trimmed(old(self).srtm_dir@)
                }
            },
    {
        if !self.request_load {
            return None;
        }
        self.request_load = false;
        let input_path = trim_string(self.input_path.as_str());
        if input_path.as_str().unicode_len() == 0 {
            self.status = String::from_str("Enter a prepared .osm path before loading.");
            return None;
        }
        let srtm = trim_string(self.srtm_dir.as_str());
        let srtm_dir = if srtm.as_str().unicode_len() == 0 {
            None
        } else {
            Some(srtm)
        };
        Some(AreaSwitchRequest { input_path, srtm_dir })
    }
}

} // verus!
