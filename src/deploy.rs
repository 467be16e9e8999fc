//! Decisions of the deployment tool: which settings it uses and which build
//! it asks for. Running the build and talking to the network are the
//! caller's.

use vstd::prelude::*;

verus! {

/// What the deployment tool is given on its command line.
#[derive(Clone, Debug, PartialEq, Eq)]
pub struct Params {
    /// Name of the project to build.
    pub example_name: String,
    /// Name of the graph.
    pub graph_slug: Option<String>,
    /// Access token of the graph studio.
    pub graph_studio_token: Option<String>,
    /// Whether to build in release mode.
    pub release: bool,
}

/// The settings that a deployment needs.
#[derive(Clone, Debug, PartialEq, Eq)]
pub struct GraphConfig {
    pub slug: String,
    pub studio_token: String,
}

/// A setting given neither on the command line nor in the environment.
#[derive(Clone, Copy, Debug, PartialEq, Eq, Structural)]
pub enum ConfigError {
    MissingSlug,
    MissingStudioToken,
}

/// The deployment's settings: each from the command line when given there,
/// else from the environment (`env_slug`, `env_token`).
pub fn param_validation(params: &Params, env_slug: Option<String>, env_token: Option<String>) -> (r:
    Result<GraphConfig, ConfigError>)
    ensures
        params.graph_slug is None && env_slug is None ==> r == Err::<GraphConfig, ConfigError>(
            ConfigError::MissingSlug,
        ),
        (params.graph_slug is Some || env_slug is Some) && params.graph_studio_token is None
            && env_token is None ==> r == Err::<GraphConfig, ConfigError>(
            ConfigError::MissingStudioToken,
        ),
        r matches Ok(c) ==> {
            &&& c.slug@ == (match params.graph_slug {
                Some(s) => s@,
                None => env_slug->Some_0@,
            })
            &&& c.studio_token@ == (match params.graph_studio_token {
                Some(t) => t@,
                None => env_token->Some_0@,
            })
        },
        (params.graph_slug is Some || env_slug is Some) && (params.graph_studio_token is Some
            || env_token is Some) ==> r is Ok,
{
    let slug = match &params.graph_slug {
        Some(s) => s.clone(),
        None => match env_slug {
            Some(s) => s,
            None => return Err(ConfigError::MissingSlug),
        },
    };
    let studio_token = match &params.graph_studio_token {
        Some(t) => t.clone(),
        None => match env_token {
            Some(t) => t,
            None => return Err(ConfigError::MissingStudioToken),
        },
    };
    Ok(GraphConfig { slug, studio_token })
}

/// Arguments of the `cargo` command that builds `project_name` for the
/// guest's target: `build -p <name> [--release] --target wasm32-unknown-unknown`.
pub fn cargo_build_args(project_name: &str, release: bool) -> (r: Vec<String>)
    ensures
        r@.len() == if release {
            6int
        } else {
            5int
        },
        r@[0]@ == "build"@,
        r@[1]@ == "-p"@,
        r@[2]@ == project_name@,
        release ==> r@[3]@ == "--release"@,
        r@[r@.len() - 2]@ == "--target"@,
        r@[r@.len() - 1]@ == "wasm32-unknown-unknown"@,
{
    let mut r: Vec<String> = Vec::new();
    r.push(String::from_str("build"));
    r.push(String::from_str("-p"));
    r.push(String::from_str(project_name));
    if release {
        r.push(String::from_str("--release"));
    }
    r.push(String::from_str("--target"));
    r.push(String::from_str("wasm32-unknown-unknown"));
    r
}

} // verus!
