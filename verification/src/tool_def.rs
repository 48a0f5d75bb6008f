//! Tool definition types for node-advertised tools.
//!
//! Each definition names one tool, describes its parameters with a JSON
//! Schema and says how the node executes it.

use vstd::prelude::*;
use std::collections::HashMap;

verus! {

/// A complete tool definition, as a node loads it from a JSON file.
#[derive(Debug, Clone)]
pub struct NodeToolDef {
    /// Tool name (e.g. "xcode_build"). Must be unique per node.
    pub name: String,
    /// Human-readable description shown to the agent.
    pub description: String,
    /// Optional MCP-standard annotations (hints about behavior).
    pub annotations: Option<ToolAnnotations>,
    /// JSON Schema describing the tool's parameters.
    pub parameters: serde_json::Value,
    /// How the tool is executed (stays on the node, never sent to gateway).
    pub handler: ToolHandler,
}

/// MCP-standard tool annotations (all optional, conservative defaults).
#[derive(Debug)]
pub struct ToolAnnotations {
    /// Human-readable display name.
    pub title: Option<String>,
    /// Tool only reads data, does not modify anything.
    pub read_only_hint: Option<bool>,
    /// Tool may perform destructive/irreversible operations.
    pub destructive_hint: Option<bool>,
    /// Repeated calls with same params have no additional effect.
    pub idempotent_hint: Option<bool>,
    /// Tool interacts with external entities beyond its host.
    pub open_world_hint: Option<bool>,
}

impl Clone for ToolAnnotations {
    fn clone(&self) -> (r: Self)
        ensures
            r == *self,
    {
        ToolAnnotations {
            title: self.title.clone(),
            read_only_hint: self.read_only_hint,
            destructive_hint: self.destructive_hint,
            idempotent_hint: self.idempotent_hint,
            open_world_hint: self.open_world_hint,
        }
    }
}

/// How the tool is executed on the node.
#[derive(Debug, Clone)]
pub enum ToolHandler {
    /// Direct process execution (no shell).
    Exec(ExecHandler),
    /// Forward parameters as JSON to a local HTTP endpoint.
    Http(HttpHandler),
}

/// Execute a program directly via `execve`, no shell involved.
///
/// Parameters are substituted into the `args` array as literal string values.
/// Each `{{param}}` is replaced with the parameter's value and passed as a
/// discrete argv element. The value is never interpreted by a shell.
#[derive(Debug, Clone)]
pub struct ExecHandler {
    /// Program to execute (e.g. "xcodebuild").
    pub program: String,
    /// Argument templates. `{{param_name}}` placeholders are substituted.
    pub args: Vec<String>,
    /// Working directory template (optional, supports `{{param}}` substitution).
    pub cwd: Option<String>,
    /// Kill the process after this many seconds.
    pub timeout_secs: u64,
    /// Return only the last N lines of stdout (all if `None`).
    pub max_output_lines: Option<usize>,
    /// How to handle stderr: `"separate"` (default) or `"merge"` into stdout.
    pub stderr: StderrMode,
    /// Optional environment variables to set.
    pub env: HashMap<String, String>,
}

/// Forward JSON parameters to a local HTTP endpoint.
#[derive(Debug, Clone)]
pub struct HttpHandler {
    /// URL to POST to (e.g. "http://localhost:8080/api/build").
    pub url: String,
    /// HTTP method (defaults to POST).
    pub method: String,
    /// Kill the request after this many seconds.
    pub timeout_secs: u64,
    /// Optional extra headers.
    pub headers: HashMap<String, String>,
}

/// How to handle stderr output.
#[derive(Debug, Clone, Copy, PartialEq, Eq, Structural)]
pub enum StderrMode {
    Separate,
    Merge,
}

impl Default for StderrMode {
    fn default() -> (r: Self)
        ensures
            r == StderrMode::Separate,
    {
        StderrMode::Separate
    }
}

/// The timeout, in seconds, of a handler that names none.
pub fn default_timeout_secs() -> (r: u64)
    ensures
        r == 60,
{
    60
}

/// The stderr mode of an exec handler that names none.
pub fn default_stderr_mode() -> (r: StderrMode)
    ensures
        r == StderrMode::Separate,
{
    StderrMode::Separate
}

/// The method of an HTTP handler that names none.
pub fn default_http_method() -> (r: String)
    ensures
        r@ == "POST"@,
{
    String::from_str("POST")
}

/// The subset of `NodeToolDef` sent to the gateway in the handshake.
/// Excludes the `handler` block for security.
#[derive(Debug)]
pub struct NodeToolSchema {
    pub name: String,
    pub description: String,
    pub annotations: Option<ToolAnnotations>,
    pub parameters: serde_json::Value,
}

impl Clone for NodeToolSchema {
    fn clone(&self) -> (r: Self)
        ensures
            r == *self,
    {
        NodeToolSchema {
            name: self.name.clone(),
            description: self.description.clone(),
            annotations: self.annotations.clone(),
            parameters: self.parameters.clone(),
        }
    }
}

impl<'a> From<&'a NodeToolDef> for NodeToolSchema {
    fn from(def: &'a NodeToolDef) -> (r: Self)
        ensures
            r.name == def.name,
            r.description == def.description,
            r.annotations == def.annotations,
            r.parameters == def.parameters,
    {
        NodeToolSchema {
            name: def.name.clone(),
            description: def.description.clone(),
            annotations: def.annotations.clone(),
            parameters: def.parameters.clone(),
        }
    }
}

impl<'a> vstd::std_specs::convert::FromSpecImpl<&'a NodeToolDef> for NodeToolSchema {
    open spec fn obeys_from_spec() -> bool {
        true
    }

    /// Everything of the definition but its handler.
    open spec fn from_spec(def: &'a NodeToolDef) -> Self {
        NodeToolSchema {
            name: def.name,
            description: def.description,
            annotations: def.annotations,
            parameters: def.parameters,
        }
    }
}

/// The handshake schema of a definition carries its name, description,
/// annotations and parameters unchanged.
pub proof fn lemma_schema_keeps_advertised_fields(def: &NodeToolDef)
    ensures
        <NodeToolSchema as vstd::std_specs::convert::FromSpec<&NodeToolDef>>::from_spec(def).name
            == def.name,
        <NodeToolSchema as vstd::std_specs::convert::FromSpec<&NodeToolDef>>::from_spec(
            def,
        ).description == def.description,
        <NodeToolSchema as vstd::std_specs::convert::FromSpec<&NodeToolDef>>::from_spec(
            def,
        ).annotations == def.annotations,
        <NodeToolSchema as vstd::std_specs::convert::FromSpec<&NodeToolDef>>::from_spec(
            def,
        ).parameters == def.parameters,
{
}

} // verus!
