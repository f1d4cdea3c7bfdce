use vstd::prelude::*;

use crate::record::ContainerStrategy;
use crate::text::same_text;

verus! {

/// The editor command used when none is given.
pub fn default_editor_command() -> (r: String)
    ensures
        r@ == "code"@,
{
    String::from_str("code")
}

/// The lower-case form of a text.
pub uninterp spec fn lower_of(s: Seq<char>) -> Seq<char>;

/// Relies on `str::to_lowercase`: the lower-case mapping of Unicode, which depends
/// on the characters alone; an empty text stays empty.
#[verifier::external_body]
fn lowercase(s: &str) -> (r: String)
    ensures
        r@ == lower_of(s@),
        s@.len() == 0 ==> r@.len() == 0,
{
    s.to_lowercase()
}

/// The name under which the editor started by `command` is shown, given the
/// command in lower case as `folded`: a known editor by its product name, any
/// other command quoted.
pub open spec fn editor_name(folded: Seq<char>, command: Seq<char>) -> Seq<char> {
    if folded == "code"@ {
        "Visual Studio Code"@
    } else if folded == "code-insiders"@ {
        "Visual Studio Code Insiders"@
    } else if folded == "cursor"@ {
        "Cursor"@
    } else if folded == "codium"@ {
        "VSCodium"@
    } else if folded == "positron"@ {
        "Positron"@
    } else {
        "'"@ + command + "'"@
    }
}

/// The shown name of the editor started by `command`, whose lower-case form is `folded`.
pub fn editor_name_for_folded(folded: &str, command: &str) -> (r: String)
    ensures
        r@ == editor_name(folded@, command@),
{
    if same_text(folded, "code") {
        String::from_str("Visual Studio Code")
    } else if same_text(folded, "code-insiders") {
        String::from_str("Visual Studio Code Insiders")
    } else if same_text(folded, "cursor") {
        String::from_str("Cursor")
    } else if same_text(folded, "codium") {
        String::from_str("VSCodium")
    } else if same_text(folded, "positron") {
        String::from_str("Positron")
    } else {
        let mut r = String::from_str("'");
        r.append(command);
        r.append("'");
        r
    }
}

/// The shown name of the editor started by `command`; known editors are
/// recognised whatever the case of the command.
pub fn format_editor_name(command: &str) -> (r: String)
    ensures
        r@ == editor_name(lower_of(command@), command@),
{
    let folded = lowercase(command);
    editor_name_for_folded(folded.as_str(), command)
}

/// A folder that holds a project for the editor.
#[derive(Debug, Clone)]
pub struct Workspace {
    /// The (canonical) path of the workspace.
    pub path: String,
    /// The name of the workspace: the last component of its path.
    pub name: String,
}

/// A development container configuration found for a workspace.
#[derive(Debug, Clone)]
pub struct DevContainer {
    /// The path of the configuration file.
    pub config_path: String,
    /// The name that the configuration gives the container, if any.
    pub name: Option<String>,
    /// The folder of the workspace inside the container.
    pub workspace_path_in_container: String,
}

/// The folder in the container for a workspace named `workspace_name` whose
/// configuration names none.
pub open spec fn default_container_folder(workspace_name: Seq<char>) -> Seq<char> {
    "/workspaces/"@ + workspace_name
}

impl DevContainer {
    /// The container described by the configuration at `config_path`, whose
    /// `workspaceFolder` and `name` entries are `folder` and `name`; without a folder
    /// the workspace goes to `/workspaces/<workspace name>`.
    pub fn from_config_values(
        config_path: String,
        workspace_name: &str,
        folder: Option<String>,
        name: Option<String>,
    ) -> (r: DevContainer)
        ensures
            r.config_path@ == config_path@,
            r.name == name,
            folder matches Some(f) ==> r.workspace_path_in_container@ == f@,
            folder is None ==> r.workspace_path_in_container@ == default_container_folder(
                workspace_name@,
            ),
    {
        let workspace_path_in_container = match folder {
            Some(f) => f,
            None => {
                let mut f = String::from_str("/workspaces/");
                f.append(workspace_name);
                f
            },
        };
        DevContainer { config_path, name, workspace_path_in_container }
    }
}

/// Whether the launch looks for a development container, and whether one is needed.
#[derive(Debug, Clone, Copy, PartialEq, Eq, Structural)]
pub enum Detection {
    /// No container is looked for.
    Skip,
    /// A container is used if one is found.
    Optional,
    /// A container must be found.
    Required,
}

/// The detection that a strategy asks for.
pub open spec fn detection_of(s: ContainerStrategy) -> Detection {
    match s {
        ContainerStrategy::Detect => Detection::Optional,
        ContainerStrategy::ForceContainer => Detection::Required,
        ContainerStrategy::ForceClassic => Detection::Skip,
    }
}

impl ContainerStrategy {
    /// The detection that the strategy asks for.
    pub fn detection(&self) -> (r: Detection)
        ensures
            r == detection_of(*self),
    {
        match self {
            ContainerStrategy::Detect => Detection::Optional,
            ContainerStrategy::ForceContainer => Detection::Required,
            ContainerStrategy::ForceClassic => Detection::Skip,
        }
    }
}

/// The message when a container is required and none was found.
pub open spec fn missing_container_message() -> Seq<char> {
    "No dev container found, but was forced to open it using dev containers."@
}

/// The container to open with, from what detection found: under `ForceClassic`
/// none, under `Detect` what was found, and under `ForceContainer` what was found
/// or, when nothing was, the error.
pub fn resolve_container(strategy: ContainerStrategy, found: Option<DevContainer>) -> (r: Result<
    Option<DevContainer>,
    String,
>)
    ensures
        strategy == ContainerStrategy::ForceClassic ==> r matches Ok(None),
        strategy == ContainerStrategy::Detect ==> r == Ok::<Option<DevContainer>, String>(found),
        strategy == ContainerStrategy::ForceContainer && found is Some ==> r == Ok::<
            Option<DevContainer>,
            String,
        >(found),
        strategy == ContainerStrategy::ForceContainer && found is None ==> (r matches Err(m) && m@
            == missing_container_message()),
{
    match strategy {
        ContainerStrategy::ForceClassic => Ok(None),
        ContainerStrategy::Detect => Ok(found),
        ContainerStrategy::ForceContainer => match found {
            Some(c) => Ok(Some(c)),
            None => Err(
                String::from_str(
                    "No dev container found, but was forced to open it using dev containers.",
                ),
            ),
        },
    }
}

/// How a container is picked from the configurations found in a workspace.
#[derive(Debug, Clone, Copy, PartialEq, Eq, Structural)]
pub enum ContainerPick {
    /// There is none.
    NoneFound,
    /// The only one is taken.
    Only,
    /// The user chooses among several.
    Ask,
}

/// How a container is picked from `count` configurations.
pub fn pick_container(count: usize) -> (r: ContainerPick)
    ensures
        count == 0 <==> r == ContainerPick::NoneFound,
        count == 1 <==> r == ContainerPick::Only,
        count > 1 <==> r == ContainerPick::Ask,
{
    if count == 0 {
        ContainerPick::NoneFound
    } else if count == 1 {
        ContainerPick::Only
    } else {
        ContainerPick::Ask
    }
}

} // verus!
