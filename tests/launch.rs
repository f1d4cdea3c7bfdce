use vscli::launch::{
    default_editor_command, editor_name_for_folded, format_editor_name, pick_container,
    resolve_container, ContainerPick, DevContainer, Detection,
};
use vscli::record::{Behavior, ContainerStrategy, LAUNCH_DETECT};
use vscli::uri::{classic_launch_args, container_launch_args, file_uri_text, folder_uri, FileUriJson};

#[test]
fn test_deserialize_devcontainer() {
    let path = "tests/fixtures/devcontainer.json".to_string();
    let dev_container =
        DevContainer::from_config_values(path.clone(), "test", None, Some(String::from("Rust")));

    assert_eq!(dev_container.config_path, path);
    assert_eq!(dev_container.name, Some(String::from("Rust")));
    assert_eq!(dev_container.workspace_path_in_container, "/workspaces/test");
}

#[test]
fn container_folder_from_config() {
    let dc = DevContainer::from_config_values("c.json".to_string(), "test", Some("/src".to_string()), None);
    assert_eq!(dc.workspace_path_in_container, "/src");
    assert_eq!(dc.name, None);
}

#[test]
fn strategy_names() {
    assert_eq!(ContainerStrategy::from_str("detect"), Ok(ContainerStrategy::Detect));
    assert_eq!(ContainerStrategy::from_str("force-container"), Ok(ContainerStrategy::ForceContainer));
    assert_eq!(ContainerStrategy::from_str("force-classic"), Ok(ContainerStrategy::ForceClassic));
    assert_eq!(
        ContainerStrategy::from_str("sometimes"),
        Err("Invalid launch behavior: sometimes".to_string())
    );
    assert_eq!(ContainerStrategy::ForceClassic.as_str(), "force-classic");
    assert_eq!(ContainerStrategy::Detect.as_str(), LAUNCH_DETECT);
    assert_eq!(ContainerStrategy::default(), ContainerStrategy::Detect);
    assert_eq!(ContainerStrategy::ForceContainer.detection(), Detection::Required);
    assert_eq!(ContainerStrategy::ForceClassic.detection(), Detection::Skip);
}

#[test]
fn editor_names() {
    assert_eq!(default_editor_command(), "code");
    assert_eq!(format_editor_name("code"), "Visual Studio Code");
    assert_eq!(format_editor_name("CODE-Insiders"), "Visual Studio Code Insiders");
    assert_eq!(format_editor_name("Cursor"), "Cursor");
    assert_eq!(format_editor_name("codium"), "VSCodium");
    assert_eq!(format_editor_name("positron"), "Positron");
    assert_eq!(format_editor_name("Vim"), "'Vim'");
    assert_eq!(editor_name_for_folded("code", "Code"), "Visual Studio Code");
    assert_eq!(editor_name_for_folded("zed", "Zed"), "'Zed'");
}

#[test]
fn container_resolution() {
    let dc = DevContainer {
        config_path: "/w/.devcontainer.json".to_string(),
        name: None,
        workspace_path_in_container: "/workspaces/w".to_string(),
    };
    assert!(resolve_container(ContainerStrategy::Detect, None).unwrap().is_none());
    assert!(resolve_container(ContainerStrategy::Detect, Some(dc.clone())).unwrap().is_some());
    assert!(resolve_container(ContainerStrategy::ForceClassic, Some(dc.clone())).unwrap().is_none());
    assert!(resolve_container(ContainerStrategy::ForceContainer, Some(dc)).unwrap().is_some());
    assert_eq!(
        resolve_container(ContainerStrategy::ForceContainer, None).unwrap_err(),
        "No dev container found, but was forced to open it using dev containers."
    );
    assert_eq!(pick_container(0), ContainerPick::NoneFound);
    assert_eq!(pick_container(1), ContainerPick::Only);
    assert_eq!(pick_container(3), ContainerPick::Ask);
}

#[test]
fn uri_building() {
    assert_eq!(folder_uri("{}", "/workspaces/x"), "vscode-remote://dev-container+7b7d/workspaces/x");
    assert_eq!(folder_uri("\u{e9}", ""), "vscode-remote://dev-container+c3a9");
    assert_eq!(file_uri_text("/home/me/.devcontainer.json"), "file:///home/me/.devcontainer.json");
    assert_eq!(file_uri_text("C:\\Users\\me\\dc.json"), "file://C:/Users/me/dc.json");
    assert_eq!(file_uri_text("\\\\server\\share\\dc.json"), "file://server/share/dc.json");
}

#[test]
fn launch_arguments() {
    let args = vec!["--new-window".to_string()];
    assert_eq!(
        container_launch_args(args.clone(), "uri".to_string()).unwrap(),
        vec!["--new-window".to_string(), "--folder-uri".to_string(), "uri".to_string()]
    );
    assert_eq!(
        container_launch_args(vec!["--folder-uri".to_string()], "uri".to_string()).unwrap_err(),
        "Specifying `--folder-uri` is not possible while using vscli."
    );
    assert_eq!(
        classic_launch_args("/w".to_string(), args),
        vec!["/w".to_string(), "--new-window".to_string()]
    );
}

#[test]
fn file_uri_parts() {
    let unc = FileUriJson::new("\\\\server\\share\\dc.json").unwrap();
    assert_eq!(unc.authority, Some("server".to_string()));
    assert_eq!(unc.path, "/share/dc.json");
    let local = FileUriJson::new("/home/me/.devcontainer/devcontainer.json").unwrap();
    assert_eq!(local.path, "/home/me/.devcontainer/devcontainer.json");
}

#[test]
fn behavior_overrides() {
    let stored = Behavior {
        strategy: ContainerStrategy::Detect,
        args: vec!["--a".to_string()],
        command: "code".to_string(),
    };
    let same = stored.clone().overridden(None, None, vec![]);
    assert_eq!(same.command, "code");
    assert_eq!(same.strategy, ContainerStrategy::Detect);
    assert_eq!(same.args, vec!["--a".to_string()]);
    let changed = stored.overridden(Some("cursor".to_string()), Some(ContainerStrategy::ForceClassic), vec!["--b".to_string()]);
    assert_eq!(changed.command, "cursor");
    assert_eq!(changed.strategy, ContainerStrategy::ForceClassic);
    assert_eq!(changed.args, vec!["--b".to_string()]);
}
