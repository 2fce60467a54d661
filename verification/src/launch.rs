//! The renderer launch command for a prepared area, and the confinement of
//! client-supplied paths to the cache directories they must lie in.

use vstd::prelude::*;

use crate::extra_args::{
    args_view, check_latitude_text, check_longitude_text, check_view, coordinate_check,
    scan_args, validate_extra_args, ExtraArgsError,
};
use crate::float_text::FloatRule;
use crate::paths::{extension_of, joined_path, path_has_prefix, join_path, path_extension, starts_with_path};
use crate::rate_limit::string_views;
use crate::shell::{shell_command, shell_command_text};
use crate::text::{chars_of, trim_bounds, trimmed};

verus! {

/// A renderer launch: the program, its arguments, the same as one shell
/// command line, and the directory to run it in.
#[derive(Clone, Debug)]
pub struct RendererLaunchCommand {
    pub program: String,
    pub args: Vec<String>,
    pub command: String,
    pub command_cwd: String,
}

/// Why a launch command could not be built.
#[derive(Debug)]
pub enum LaunchCommandError {
    /// Only one of the spawn latitude and longitude was given.
    IncompleteSpawn,
    /// The spawn latitude is not a finite latitude; the text says why.
    InvalidSpawnLatitude(String),
    /// The spawn longitude is not a finite longitude; the text says why.
    InvalidSpawnLongitude(String),
    /// The input is not a prepared `.osm` file.
    NotOsmFile,
    /// The extra renderer arguments were refused.
    ExtraArgs(ExtraArgsError),
}

impl LaunchCommandError {
    /// The error message.
    pub fn message(&self) -> (r: String)
        ensures
            self is IncompleteSpawn ==> r@
                == "spawn_lat and spawn_lon must be provided together"@,
            self matches LaunchCommandError::InvalidSpawnLatitude(m) ==> r@ == "invalid spawn_lat: "@
                + m@,
            self matches LaunchCommandError::InvalidSpawnLongitude(m) ==> r@ == "invalid spawn_lon: "@
                + m@,
            self is NotOsmFile ==> r@ == "renderer launch requires a prepared .osm file"@,
            self matches LaunchCommandError::ExtraArgs(e) ==> r@
                == crate::extra_args::extra_args_message(e.rejected_view(), e.problems_view()),
    {
        match self {
            LaunchCommandError::IncompleteSpawn => String::from_str(
                "spawn_lat and spawn_lon must be provided together",
            ),
            LaunchCommandError::InvalidSpawnLatitude(m) => {
                let mut r = String::from_str("invalid spawn_lat: ");
                r.append(m.as_str());
                r
            },
            LaunchCommandError::InvalidSpawnLongitude(m) => {
                let mut r = String::from_str("invalid spawn_lon: ");
                r.append(m.as_str());
                r
            },
            LaunchCommandError::NotOsmFile => String::from_str(
                "renderer launch requires a prepared .osm file",
            ),
            LaunchCommandError::ExtraArgs(e) => e.message(),
        }
    }
}

/// What a launch is asked for: the prepared file, the elevation directory,
/// the spawn latitude and longitude as decimal text (both or neither), and
/// further renderer arguments.
#[derive(Clone, Debug)]
pub struct LaunchSpec {
    pub osm_path: String,
    pub srtm_dir: Option<String>,
    pub spawn_lat: Option<String>,
    pub spawn_lon: Option<String>,
    pub extra_args: Vec<String>,
}

/// What is wrong with the spawn point, if anything: given both or neither,
/// a latitude that is a finite `f64` in `-90..=90` and a longitude that is a
/// finite `f64` in `-180..=180`.
pub enum SpawnIssue {
    Incomplete,
    Latitude(Seq<char>),
    Longitude(Seq<char>),
}

pub open spec fn spawn_issue(lat: Option<String>, lon: Option<String>) -> Option<SpawnIssue> {
    match (lat, lon) {
        (None, None) => None,
        (Some(a), Some(b)) => match coordinate_check(FloatRule::LatitudeF64, a@) {
            Err(m) => Some(SpawnIssue::Latitude(m)),
            Ok(()) => match coordinate_check(FloatRule::LongitudeF64, b@) {
                Err(m) => Some(SpawnIssue::Longitude(m)),
                Ok(()) => None,
            },
        },
        _ => Some(SpawnIssue::Incomplete),
    }
}

/// The error a spawn issue is reported as.
pub open spec fn spawn_error_matches(e: LaunchCommandError, issue: SpawnIssue) -> bool {
    match issue {
        SpawnIssue::Incomplete => e is IncompleteSpawn,
        SpawnIssue::Latitude(m) => e matches LaunchCommandError::InvalidSpawnLatitude(t) && t@ == m,
        SpawnIssue::Longitude(m) => e matches LaunchCommandError::InvalidSpawnLongitude(t) && t@
            == m,
    }
}

/// The elevation directory, when one is given that is not blank.
pub open spec fn given_srtm_dir(d: Option<String>) -> Option<Seq<char>> {
    match d {
        Some(s) => if trimmed(s@).len() > 0 {
            Some(s@)
        } else {
            None
        },
        None => None,
    }
}

/// The arguments of `cargo` that run the renderer of the project at
/// `project_root` on a prepared file.
pub open spec fn launch_args(project_root: Seq<char>, spec: LaunchSpec) -> Seq<Seq<char>> {
    let base = seq![
        "run"@,
        "--manifest-path"@,
        joined_path(project_root, "Cargo.toml"@),
        "--"@,
        "--input"@,
        spec.osm_path@,
    ];
    let spawn = match (spec.spawn_lat, spec.spawn_lon) {
        (Some(lat), Some(lon)) => seq!["--spawn-lat"@, lat@, "--spawn-lon"@, lon@],
        _ => Seq::empty(),
    };
    let srtm = match given_srtm_dir(spec.srtm_dir) {
        Some(d) => seq!["--srtm-dir"@, d],
        None => Seq::empty(),
    };
    base + spawn + srtm + string_views(spec.extra_args@)
}

/// Whether the extra renderer arguments pass the allowlist.
pub open spec fn extra_args_accepted(args: Seq<String>) -> bool {
    ({
        let (rejected, issues) = scan_args(args_view(args), 0);
        rejected.len() == 0 && issues.len() == 0
    })
}

fn push_str(v: &mut Vec<String>, s: &str)
    ensures
        string_views(final(v)@) == string_views(old(v)@).push(s@),
{
    let ghost before = string_views(v@);
    v.push(s.to_string());
    assert(string_views(v@) =~= before.push(s@));
}

/// Builds the `cargo run` command that opens the renderer on a prepared
/// file. Refused, in this order of checking, when the spawn point is
/// incomplete or out of range, when the file's extension is not `osm`, or
/// when the extra arguments are refused; otherwise the program is `cargo`,
/// the arguments are `launch_args`, the command line is their shell-quoted
/// form and the working directory is the project root.
pub fn renderer_launch_command(project_root: &str, spec: &LaunchSpec) -> (r: Result<
    RendererLaunchCommand,
    LaunchCommandError,
>)
    ensures
        r is Ok <==> (spawn_issue(spec.spawn_lat, spec.spawn_lon) is None && extension_of(
            spec.osm_path@,
        ) == Some("osm"@) && extra_args_accepted(spec.extra_args@)),
        spawn_issue(spec.spawn_lat, spec.spawn_lon) matches Some(issue) ==> (r matches Err(e)
            && spawn_error_matches(e, issue)),
        spawn_issue(spec.spawn_lat, spec.spawn_lon) is None && extension_of(spec.osm_path@)
            != Some("osm"@) ==> r matches Err(LaunchCommandError::NotOsmFile),
        r matches Ok(c) ==> {
            &&& c.program@ == "cargo"@
            &&& string_views(c.args@) == launch_args(project_root@, *spec)
            &&& c.command@ == shell_command_text("cargo"@, launch_args(project_root@, *spec))
            &&& c.command_cwd@ == project_root@
        },
{
    match (&spec.spawn_lat, &spec.spawn_lon) {
        (None, None) => {},
        (Some(lat), Some(lon)) => {
            match check_latitude_text(lat.as_str()) {
                Err(m) => {
                    return Err(LaunchCommandError::InvalidSpawnLatitude(m));
                },
                Ok(()) => {},
            }
            match check_longitude_text(lon.as_str()) {
                Err(m) => {
                    return Err(LaunchCommandError::InvalidSpawnLongitude(m));
                },
                Ok(()) => {},
            }
        },
        _ => {
            return Err(LaunchCommandError::IncompleteSpawn);
        },
    }
    let is_osm = match path_extension(spec.osm_path.as_str()) {
        Some(ext) => crate::text::same_text(ext.as_str(), "osm"),
        None => false,
    };
    if !is_osm {
        return Err(LaunchCommandError::NotOsmFile);
    }
    let mut args: Vec<String> = Vec::new();
    push_str(&mut args, "run");
    push_str(&mut args, "--manifest-path");
    let manifest = join_path(project_root, "Cargo.toml");
    push_str(&mut args, manifest.as_str());
    push_str(&mut args, "--");
    push_str(&mut args, "--input");
    push_str(&mut args, spec.osm_path.as_str());
    let ghost base = string_views(args@);
    match (&spec.spawn_lat, &spec.spawn_lon) {
        (Some(lat), Some(lon)) => {
            push_str(&mut args, "--spawn-lat");
            push_str(&mut args, lat.as_str());
            push_str(&mut args, "--spawn-lon");
            push_str(&mut args, lon.as_str());
        },
        _ => {},
    }
    let ghost with_spawn = string_views(args@);
    match &spec.srtm_dir {
        Some(d) => {
            let v = chars_of(d.as_str());
            let (a, b) = trim_bounds(&v);
            if a < b {
                push_str(&mut args, "--srtm-dir");
                push_str(&mut args, d.as_str());
            }
        },
        None => {},
    }
    let ghost with_srtm = string_views(args@);
    match validate_extra_args(spec.extra_args.as_slice()) {
        Err(e) => {
            return Err(LaunchCommandError::ExtraArgs(e));
        },
        Ok(()) => {},
    }
    let mut k: usize = 0;
    while k < spec.extra_args.len()
        invariant
            k <= spec.extra_args.len(),
            string_views(args@) == with_srtm + string_views(spec.extra_args@).take(k as int),
        decreases spec.extra_args.len() - k,
    {
        push_str(&mut args, spec.extra_args[k].as_str());
        k = k + 1;
        assert(string_views(args@) =~= with_srtm + string_views(spec.extra_args@).take(k as int));
    }
    proof {
        assert(string_views(spec.extra_args@).take(spec.extra_args.len() as int) =~= string_views(
            spec.extra_args@,
        ));
        assert(string_views(args@) =~= launch_args(project_root@, *spec));
    }
    let program = String::from_str("cargo");
    let command = shell_command(program.as_str(), args.as_slice());
    proof {
        assert(args@.map_values(|a: String| a@) =~= string_views(args@));
    }
    Ok(RendererLaunchCommand { program, args, command, command_cwd: project_root.to_string() })
}

/// Why a client-supplied path was refused.
#[derive(Clone, Debug)]
pub enum PathConfinementError {
    /// The root directory could not be resolved.
    RootNotAccessible { field: String, root: String },
    /// The path could not be resolved.
    DoesNotResolve { field: String, root: String },
    /// The resolved path lies outside the root.
    Outside { field: String, root: String },
}

impl PathConfinementError {
    /// The error message.
    pub fn message(&self) -> (r: String)
        ensures
            match self {
                PathConfinementError::RootNotAccessible { field, root } => r@ == field@
                    + " root "@ + root@ + " is not accessible"@,
                PathConfinementError::DoesNotResolve { field, root } => r@ == field@
                    + " does not resolve inside "@ + root@,
                PathConfinementError::Outside { field, root } => r@ == field@
                    + " must stay inside "@ + root@,
            },
    {
        match self {
            PathConfinementError::RootNotAccessible { field, root } => {
                let mut r = field.clone();
                r.append(" root ");
                r.append(root.as_str());
                r.append(" is not accessible");
                r
            },
            PathConfinementError::DoesNotResolve { field, root } => {
                let mut r = field.clone();
                r.append(" does not resolve inside ");
                r.append(root.as_str());
                r
            },
            PathConfinementError::Outside { field, root } => {
                let mut r = field.clone();
                r.append(" must stay inside ");
                r.append(root.as_str());
                r
            },
        }
    }
}

/// Every part of a launch request reaches the renderer: the arguments start
/// with `run --manifest-path <project>/Cargo.toml -- --input <file>`; a given
/// spawn point is passed as `--spawn-lat <lat> --spawn-lon <lon>`; an
/// elevation directory that is not blank is passed as `--srtm-dir <dir>`,
/// whether or not a spawn point is given; and the extra arguments come last,
/// unchanged and in order.
pub proof fn lemma_launch_args_carry_every_request(project_root: Seq<char>, spec: LaunchSpec)
    ensures
        ({
            let args = launch_args(project_root, spec);
            &&& args.take(6) == seq![
                "run"@,
                "--manifest-path"@,
                joined_path(project_root, "Cargo.toml"@),
                "--"@,
                "--input"@,
                spec.osm_path@,
            ]
            &&& spec.spawn_lat is Some && spec.spawn_lon is Some ==> exists|i: int|
                0 <= i && i + 3 < args.len() && #[trigger] args[i] == "--spawn-lat"@ && args[i + 1]
                    == spec.spawn_lat->Some_0@ && args[i + 2] == "--spawn-lon"@ && args[i + 3]
                    == spec.spawn_lon->Some_0@
            &&& spec.srtm_dir is Some && trimmed(spec.srtm_dir->Some_0@).len() > 0 ==> exists|i: int|
                0 <= i && i + 1 < args.len() && #[trigger] args[i] == "--srtm-dir"@ && args[i + 1]
                    == spec.srtm_dir->Some_0@
            &&& args.len() >= 6 + spec.extra_args.len()
            &&& args.skip(args.len() - spec.extra_args.len()) == string_views(spec.extra_args@)
        }),
{
    let args = launch_args(project_root, spec);
    let base = seq![
        "run"@,
        "--manifest-path"@,
        joined_path(project_root, "Cargo.toml"@),
        "--"@,
        "--input"@,
        spec.osm_path@,
    ];
    let spawn: Seq<Seq<char>> = match (spec.spawn_lat, spec.spawn_lon) {
        (Some(lat), Some(lon)) => seq!["--spawn-lat"@, lat@, "--spawn-lon"@, lon@],
        _ => Seq::empty(),
    };
    let srtm: Seq<Seq<char>> = match given_srtm_dir(spec.srtm_dir) {
        Some(d) => seq!["--srtm-dir"@, d],
        None => Seq::empty(),
    };
    let extra = string_views(spec.extra_args@);
    assert(args == base + spawn + srtm + extra);
    assert(args.take(6) =~= base);
    if spec.spawn_lat is Some && spec.spawn_lon is Some {
        assert(args[6] == "--spawn-lat"@);
    }
    if spec.srtm_dir is Some && trimmed(spec.srtm_dir->Some_0@).len() > 0 {
        let i: int = 6 + spawn.len() as int;
        assert(args[i] == "--srtm-dir"@);
        assert(args[i + 1] == spec.srtm_dir->Some_0@);
    }
    assert(args.skip(args.len() - spec.extra_args.len()) =~= extra);
}

/// Confines a client-supplied path to a root directory, given the two paths
/// as resolved on disk (symbolic links followed; `None` when resolution
/// failed): refused when the root or the path does not resolve, or when the
/// resolved path does not lie under the resolved root; otherwise the resolved
/// path.
pub fn validate_path_inside(
    canonical_candidate: Option<&str>,
    root: &str,
    canonical_root: Option<&str>,
    field_name: &str,
) -> (r: Result<String, PathConfinementError>)
    ensures
        match canonical_root {
            None => r matches Err(PathConfinementError::RootNotAccessible { field, root: shown })
                && field@ == field_name@ && shown@ == root@,
            Some(cr) => match canonical_candidate {
                None => r matches Err(PathConfinementError::DoesNotResolve { field, root: shown })
                    && field@ == field_name@ && shown@ == cr@,
                Some(c) => if path_has_prefix(c@, cr@) {
                    r matches Ok(p) && p@ == c@
                } else {
                    r matches Err(PathConfinementError::Outside { field, root: shown }) && field@
                        == field_name@ && shown@ == cr@
                },
            },
        },
{
    let cr = match canonical_root {
        None => {
            return Err(
                PathConfinementError::RootNotAccessible {
                    field: field_name.to_string(),
                    root: root.to_string(),
                },
            );
        },
        Some(cr) => cr,
    };
    let c = match canonical_candidate {
        None => {
            return Err(
                PathConfinementError::DoesNotResolve {
                    field: field_name.to_string(),
                    root: cr.to_string(),
                },
            );
        },
        Some(c) => c,
    };
    if !starts_with_path(c, cr) {
        return Err(
            PathConfinementError::Outside { field: field_name.to_string(), root: cr.to_string() },
        );
    }
    Ok(c.to_string())
}

} // verus!
