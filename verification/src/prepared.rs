//! The prepared-area cache: which keys name an entry, where an entry's files
//! lie, when a cached entry may be reused, what its metadata says when the
//! sidecar cannot be read, and how a client's update changes its details.

use vstd::prelude::*;

use crate::area_switch::{nonblank_trimmed, view_opt};
use crate::digest::{is_cache_key, is_lower_hex};
use crate::errors::{chain_text_of, message_error, PrepareAreaError};
use crate::paths::{joined_path, path_with_extension, join_path, replace_extension};
use crate::rate_limit::string_views;
use crate::text::{chars_of, trim_string, trimmed};

verus! {

/// The source status of an entry built from OpenStreetMap after Overture data
/// was requested and could not be had.
pub open spec fn overture_fallback_status() -> Seq<char> {
    "overture_fallback_to_osm"@
}

/// An entry is degraded when Overture was requested but the entry was built
/// from the OpenStreetMap fallback; such an entry is prepared again rather
/// than reused.
pub fn is_degraded_overture_prepared_cache(overture_enabled: bool, source_status: &str) -> (r: bool)
    ensures
        r == (overture_enabled && source_status@ == overture_fallback_status()),
{
    overture_enabled && crate::text::same_text(source_status, "overture_fallback_to_osm")
}

/// Accepts a cache key only when it is 64 lowercase hexadecimal digits, as
/// the server derives them; anything else is a bad request.
pub fn validate_cache_key(cache_key: &str) -> (r: Result<(), PrepareAreaError>)
    ensures
        r is Ok <==> is_cache_key(cache_key@),
        r matches Err(e) ==> (e matches PrepareAreaError::BadRequest { source } && chain_text_of(
            source,
        ) == "invalid prepared area cache key"@),
{
    let v = chars_of(cache_key);
    if v.len() != 64 {
        return Err(PrepareAreaError::bad_request(message_error("invalid prepared area cache key")));
    }
    let mut i: usize = 0;
    while i < v.len()
        invariant
            i <= v.len() == 64,
            v@ == cache_key@,
            forall|j: int| 0 <= j < i ==> #[trigger] is_lower_hex(v@[j]),
        decreases v.len() - i,
    {
        let c = v[i];
        if !(('0' <= c && c <= '9') || ('a' <= c && c <= 'f')) {
            assert(!is_lower_hex(cache_key@[i as int]));
            return Err(
                PrepareAreaError::bad_request(message_error("invalid prepared area cache key")),
            );
        }
        i = i + 1;
    }
    Ok(())
}

/// The kinds of map features an area is prepared with.
#[derive(Clone, Copy, Debug)]
pub struct FeatureFilter {
    pub roads: bool,
    pub buildings: bool,
    pub water: bool,
    pub landuse: bool,
    pub railways: bool,
}

/// Refuses a filter that leaves out every kind of feature, as a bad request.
pub fn validate_filter(filter: &FeatureFilter) -> (r: Result<(), PrepareAreaError>)
    ensures
        r is Ok <==> (filter.roads || filter.buildings || filter.water || filter.landuse
            || filter.railways),
        r matches Err(e) ==> (e matches PrepareAreaError::BadRequest { source } && chain_text_of(
            source,
        ) == "all feature types are disabled"@),
{
    if !(filter.roads || filter.buildings || filter.water || filter.landuse || filter.railways) {
        return Err(PrepareAreaError::bad_request(message_error("all feature types are disabled")));
    }
    Ok(())
}

/// The file name of the prepared `.osm` file of an entry.
pub open spec fn osm_file_name(cache_key: Seq<char>) -> Seq<char> {
    cache_key + ".osm"@
}

/// The path of the prepared `.osm` file of an entry under the prepared-area
/// directory.
pub fn prepared_osm_path(prepared_dir: &str, cache_key: &str) -> (r: String)
    ensures
        r@ == joined_path(prepared_dir@, osm_file_name(cache_key@)),
{
    let mut name = cache_key.to_string();
    name.append(".osm");
    join_path(prepared_dir, name.as_str())
}

/// The metadata sidecar of a prepared `.osm` file: the same path with the
/// extension `meta.json`.
pub fn prepared_metadata_path(osm_path: &str) -> (r: String)
    ensures
        r@ == path_with_extension(osm_path@, "meta.json"@),
{
    proof {
        reveal_strlit("meta.json");
        assert(!"meta.json"@.contains('/'));
        assert(!"meta.json"@.contains('\\'));
    }
    replace_extension(osm_path, "meta.json")
}

/// Why a metadata sidecar could not be read.
#[derive(Clone, Debug)]
pub enum MetadataReadFailure {
    /// There is no sidecar.
    Missing,
    /// Reading or parsing failed, for the reason given.
    Unreadable { reason: String },
}

/// The message of a sidecar that could not be read at `path`.
pub open spec fn metadata_failure_text(path: Seq<char>, failure: MetadataReadFailure) -> Seq<
    char,
> {
    match failure {
        MetadataReadFailure::Missing => "prepared cache metadata missing at "@ + path
            + "; source status unknown"@,
        MetadataReadFailure::Unreadable { reason } => "prepared cache metadata unreadable at "@
            + path + "; source status unknown: "@ + reason@,
    }
}

/// Describes a sidecar that could not be read at `path`.
pub fn metadata_failure_message(path: &str, failure: &MetadataReadFailure) -> (r: String)
    ensures
        r@ == metadata_failure_text(path@, *failure),
{
    match failure {
        MetadataReadFailure::Missing => {
            let mut r = String::from_str("prepared cache metadata missing at ");
            r.append(path);
            r.append("; source status unknown");
            r
        },
        MetadataReadFailure::Unreadable { reason } => {
            let mut r = String::from_str("prepared cache metadata unreadable at ");
            r.append(path);
            r.append("; source status unknown: ");
            r.append(reason.as_str());
            r
        },
    }
}

/// The source status and warnings recorded for an entry.
#[derive(Clone, Debug)]
pub struct SourceSummary {
    pub source_status: String,
    pub warnings: Vec<String>,
}

/// The status reported for an entry whose metadata could not be read.
pub open spec fn unknown_source_status() -> Seq<char> {
    "cached_unknown"@
}

/// The source status and warnings of an entry from the result of reading
/// its sidecar: when it could not be read, the status is `cached_unknown`
/// and the only warning says why.
pub fn read_prepared_cache_metadata(read: Result<SourceSummary, String>) -> (r: (String, Vec<String>))
    ensures
        match read {
            Ok(m) => r.0@ == m.source_status@ && string_views(r.1@) == string_views(m.warnings@),
            Err(message) => r.0@ == unknown_source_status() && string_views(r.1@) == seq![
                message@,
            ],
        },
{
    match read {
        Ok(m) => {
            let ghost w = string_views(m.warnings@);
            (m.source_status, m.warnings)
        },
        Err(message) => {
            let mut warnings: Vec<String> = Vec::new();
            warnings.push(message);
            assert(string_views(warnings@) =~= seq![warnings@[0]@]);
            (String::from_str("cached_unknown"), warnings)
        },
    }
}

/// Whether a prepare request looks for a reusable entry at all: not when the
/// client forces a refresh, nor when no prepared file exists.
pub fn should_check_prepared_cache(force_refresh: bool, osm_exists: bool) -> (r: bool)
    ensures
        r == (!force_refresh && osm_exists),
{
    !force_refresh && osm_exists
}

/// The reusable entry, if any: an existing entry is reused with its recorded
/// status and warnings unless it is degraded.
pub fn prepared_cache_hit(overture_enabled: bool, summary: SourceSummary) -> (r: Option<SourceSummary>)
    ensures
        match r {
            Some(s) => s.source_status@ == summary.source_status@ && string_views(s.warnings@)
                == string_views(summary.warnings@) && !(overture_enabled
                && summary.source_status@ == overture_fallback_status()),
            None => overture_enabled && summary.source_status@ == overture_fallback_status(),
        },
{
    if is_degraded_overture_prepared_cache(overture_enabled, summary.source_status.as_str()) {
        None
    } else {
        Some(summary)
    }
}

/// The cache status reported for a prepare request.
pub open spec fn cache_status_text(cache_hit: bool, force_refresh: bool) -> Seq<char> {
    if cache_hit {
        "prepared_cache_hit"@
    } else if force_refresh {
        "force_refreshed"@
    } else {
        "prepared"@
    }
}

/// The cache status of a prepare request: a reused entry, one rebuilt on the
/// client's demand, or one built afresh.
pub fn prepared_cache_status(cache_hit: bool, force_refresh: bool) -> (r: String)
    ensures
        r@ == cache_status_text(cache_hit, force_refresh),
{
    if cache_hit {
        String::from_str("prepared_cache_hit")
    } else if force_refresh {
        String::from_str("force_refreshed")
    } else {
        String::from_str("prepared")
    }
}

/// The source status and warnings an entry reports, from the result of
/// reading its sidecar.
pub open spec fn recorded_summary(read: Result<SourceSummary, String>) -> (Seq<char>, Seq<Seq<char>>) {
    match read {
        Ok(m) => (m.source_status@, string_views(m.warnings@)),
        Err(message) => (unknown_source_status(), seq![message@]),
    }
}

/// What a prepare request answers when it reuses a prepared entry.
#[derive(Clone, Debug)]
pub struct CacheReuse {
    pub cache_status: String,
    pub source_status: String,
    pub warnings: Vec<String>,
}

/// Whether a prepare request reuses the prepared entry, and with what
/// answer. `osm_exists` says whether the entry's `.osm` file exists; `read`
/// is the result of reading its sidecar, `None` when it was not read. The
/// entry is reused when the client does not force a refresh, the file exists,
/// the sidecar was read, and the status it gives (`cached_unknown` when it
/// could not be read) is not a degraded one for this request; the answer
/// then carries the cache status `prepared_cache_hit` and the recorded status
/// and warnings. Otherwise the area is prepared afresh.
pub fn plan_prepared_cache(
    force_refresh: bool,
    overture_enabled: bool,
    osm_exists: bool,
    read: Option<Result<SourceSummary, String>>,
) -> (r: Option<CacheReuse>)
    ensures
        r is Some <==> !force_refresh && osm_exists && read is Some && !(overture_enabled
            && recorded_summary(read->Some_0).0 == overture_fallback_status()),
        r matches Some(c) ==> c.cache_status@ == cache_status_text(true, force_refresh)
            && c.cache_status@ == "prepared_cache_hit"@ && (c.source_status@, string_views(
            c.warnings@,
        )) == recorded_summary(read->Some_0),
{
    if !should_check_prepared_cache(force_refresh, osm_exists) {
        return None;
    }
    match read {
        None => None,
        Some(rd) => {
            let (source_status, warnings) = read_prepared_cache_metadata(rd);
            if is_degraded_overture_prepared_cache(overture_enabled, source_status.as_str()) {
                None
            } else {
                let cache_status = prepared_cache_status(true, force_refresh);
                Some(CacheReuse { cache_status, source_status, warnings })
            }
        },
    }
}

/// A client's change to an entry: each field, when given, replaces the
/// current one.
#[derive(Clone, Debug)]
pub struct PreparedAreaUpdate {
    pub display_name: Option<String>,
    pub favorite: Option<bool>,
}

/// The details of an entry a client can change.
#[derive(Clone, Debug)]
pub struct PreparedAreaDetails {
    pub display_name: Option<String>,
    pub favorite: bool,
}

/// The details after an update: a given name is trimmed, and a blank one
/// clears the name; a given favorite flag replaces the old one.
pub fn apply_prepared_area_update(details: PreparedAreaDetails, update: PreparedAreaUpdate) -> (r:
    PreparedAreaDetails)
    ensures
        view_opt(r.display_name) == match update.display_name {
            Some(name) => nonblank_trimmed(name@),
            None => view_opt(details.display_name),
        },
        r.favorite == match update.favorite {
            Some(f) => f,
            None => details.favorite,
        },
{
    let display_name = match update.display_name {
        Some(name) => {
            let t = trim_string(name.as_str());
            if t.as_str().unicode_len() == 0 {
                None
            } else {
                Some(t)
            }
        },
        None => details.display_name,
    };
    let favorite = match update.favorite {
        Some(f) => f,
        None => details.favorite,
    };
    PreparedAreaDetails { display_name, favorite }
}

/// The answer to a deleted entry.
#[derive(Clone, Debug)]
pub struct DeletePreparedAreaResponse {
    pub status: &'static str,
    pub cache_key: String,
}

impl DeletePreparedAreaResponse {
    /// The answer for the deleted entry `cache_key`.
    pub fn deleted(cache_key: &str) -> (r: Self)
        ensures
            r.status@ == "deleted"@,
            r.cache_key@ == cache_key@,
    {
        DeletePreparedAreaResponse { status: "deleted", cache_key: cache_key.to_string() }
    }
}


/// Which sources an entry's map data came from.
#[derive(Clone, Copy, Debug, PartialEq, Eq, Structural)]
pub enum SourceStatus {
    OsmOnly,
    OvertureOnly,
    Both,
    OverturePreferred,
    OvertureFallbackToOsm,
}

/// The name of a source status in API responses and metadata.
pub open spec fn source_status_text(status: SourceStatus) -> Seq<char> {
    match status {
        SourceStatus::OsmOnly => "osm_only"@,
        SourceStatus::OvertureOnly => "overture_only"@,
        SourceStatus::Both => "both"@,
        SourceStatus::OverturePreferred => "overture_preferred"@,
        SourceStatus::OvertureFallbackToOsm => overture_fallback_status(),
    }
}

/// The name of a source status.
pub fn source_status_string(status: SourceStatus) -> (r: String)
    ensures
        r@ == source_status_text(status),
{
    match status {
        SourceStatus::OsmOnly => String::from_str("osm_only"),
        SourceStatus::OvertureOnly => String::from_str("overture_only"),
        SourceStatus::Both => String::from_str("both"),
        SourceStatus::OverturePreferred => String::from_str("overture_preferred"),
        SourceStatus::OvertureFallbackToOsm => String::from_str("overture_fallback_to_osm"),
    }
}

/// An entry is retried on the next prepare request exactly when Overture was
/// requested and its recorded status is the OpenStreetMap fallback; an entry
/// recorded with any other status is reused.
pub proof fn lemma_only_fallback_entries_are_retried(status: SourceStatus, overture_enabled: bool)
    ensures
        (overture_enabled && source_status_text(status) == overture_fallback_status()) <==> (
        overture_enabled && status == SourceStatus::OvertureFallbackToOsm),
{
    reveal_strlit("osm_only");
    reveal_strlit("overture_only");
    reveal_strlit("both");
    reveal_strlit("overture_preferred");
    reveal_strlit("overture_fallback_to_osm");
    assert("osm_only"@.len() != "overture_fallback_to_osm"@.len());
    assert("overture_only"@.len() != "overture_fallback_to_osm"@.len());
    assert("both"@.len() != "overture_fallback_to_osm"@.len());
    assert("overture_preferred"@.len() != "overture_fallback_to_osm"@.len());
}

/// Where the user preferences are kept: the path given by the override
/// setting when there is one, else `.config/osm-world/prefs.json` under the
/// home directory, or under the working directory when there is no home.
pub open spec fn prefs_path_text(override_path: Option<Seq<char>>, home: Option<Seq<char>>) -> Seq<
    char,
> {
    match override_path {
        Some(p) => p,
        None => {
            let base = match home {
                Some(h) => h,
                None => "."@,
            };
            joined_path(joined_path(joined_path(base, ".config"@), "osm-world"@), "prefs.json"@)
        },
    }
}

/// Resolves the preferences path from the override setting and the home
/// directory, each when set.
pub fn prefs_path(override_path: Option<&str>, home: Option<&str>) -> (r: String)
    ensures
        r@ == prefs_path_text(
            match override_path {
                Some(p) => Some(p@),
                None => None,
            },
            match home {
                Some(h) => Some(h@),
                None => None,
            },
        ),
{
    if let Some(p) = override_path {
        return p.to_string();
    }
    let base = match home {
        Some(h) => h,
        None => ".",
    };
    let config = join_path(base, ".config");
    let app = join_path(config.as_str(), "osm-world");
    join_path(app.as_str(), "prefs.json")
}

} // verus!
