use blank::detection::{
    find_package_manager, inferred_pnpm_version, normalize_node, read_first,
    repository_has_pnpm_workspace, suggest_build, DirectoryFacts, PackageFacts, ProjectFacts,
};

fn directory() -> DirectoryFacts {
    DirectoryFacts {
        package_manager: None,
        pnpm_lock: false,
        yarn_lock: false,
        bun_lock: false,
        bun_lockb: false,
        package_lock: false,
        pnpm_lockfile: None,
        pnpm_workspace: false,
        git: false,
        repository_root: false,
    }
}

fn package(manager: Option<&str>, build: bool, dependencies: &[&str]) -> PackageFacts {
    PackageFacts {
        package_manager: manager.map(str::to_owned),
        engines_node: None,
        has_build_script: build,
        dependencies: dependencies.iter().map(|s| s.to_string()).collect(),
    }
}

#[test]
fn normalizes_common_node_ranges() {
    assert_eq!(normalize_node(">=22"), "22");
    assert_eq!(normalize_node("^20.11.0"), "20");
}

#[test]
fn node_ranges_without_a_major_fall_back() {
    assert_eq!(normalize_node("lts/*"), "24");
    assert_eq!(normalize_node(" 18 || 20 "), "18");
    assert_eq!(normalize_node("~16.2"), "16");
}

#[test]
fn detects_pnpm_vite_project_from_its_files() {
    let mut root = directory();
    root.pnpm_lock = true;
    root.pnpm_lockfile = Some("lockfileVersion: '9'".into());
    root.repository_root = true;
    let facts = ProjectFacts {
        repository_mise: false,
        package: Some(package(Some("pnpm@10.0.0"), true, &["vite"])),
        version_files: vec![None, None],
        directories: vec![root],
    };
    let result = suggest_build(&facts);
    assert_eq!(result.tools, ["node@24", "pnpm@10.0.0"]);
    assert_eq!(
        result.install_command.as_deref(),
        Some("pnpm install --frozen-lockfile")
    );
    assert_eq!(result.build_command.as_deref(), Some("pnpm run build"));
    assert_eq!(result.detected_framework.as_deref(), Some("Vite"));
    assert!(result.isolate_package_workspace);
}

#[test]
fn pins_pnpm_for_an_unversioned_lockfile_from_its_files() {
    let mut root = directory();
    root.pnpm_lock = true;
    root.pnpm_lockfile = Some("lockfileVersion: '9.0'".into());
    root.repository_root = true;
    let facts = ProjectFacts {
        repository_mise: false,
        package: Some(package(None, true, &[])),
        version_files: vec![None, None],
        directories: vec![root],
    };
    assert_eq!(suggest_build(&facts).tools, ["node@24", "pnpm@9"]);
}

#[test]
fn finds_monorepo_package_manager_without_inheriting_root_mise_from_its_files() {
    let project = directory();
    let apps = directory();
    let mut root = directory();
    root.pnpm_lock = true;
    root.pnpm_lockfile = Some("lockfileVersion: '9.0'".into());
    root.repository_root = true;
    let facts = ProjectFacts {
        repository_mise: false,
        package: Some(package(None, true, &["vite"])),
        version_files: vec![None, None],
        directories: vec![project, apps, root],
    };
    let result = suggest_build(&facts);
    assert!(!result.repository_mise);
    assert_eq!(result.tools, ["node@24", "pnpm@9"]);
    assert_eq!(result.build_command.as_deref(), Some("pnpm run build"));
}

#[test]
fn projects_without_package_json_publish_their_directory() {
    let facts = ProjectFacts {
        repository_mise: true,
        package: None,
        version_files: vec![],
        directories: vec![directory()],
    };
    let result = suggest_build(&facts);
    assert!(result.repository_mise);
    assert!(result.tools.is_empty());
    assert_eq!(result.install_command, None);
    assert_eq!(result.publish_directory, ".");
}

#[test]
fn own_mise_files_suppress_tools_and_npm_needs_no_manager_tool() {
    let mut root = directory();
    root.package_lock = true;
    root.repository_root = true;
    let facts = ProjectFacts {
        repository_mise: false,
        package: Some(package(None, false, &["astro"])),
        version_files: vec![Some("v20.1\n".into()), None],
        directories: vec![root.clone()],
    };
    let result = suggest_build(&facts);
    assert_eq!(result.tools, ["node@20.1"]);
    assert_eq!(result.install_command.as_deref(), Some("npm ci"));
    assert_eq!(result.build_command, None);
    assert_eq!(result.detected_framework.as_deref(), Some("Astro"));
    assert_eq!(result.publish_directory, "dist");
    assert!(!result.isolate_package_workspace);
    let with_mise = ProjectFacts {
        repository_mise: true,
        ..facts
    };
    assert!(suggest_build(&with_mise).tools.is_empty());
}

#[test]
fn package_managers_are_found_up_the_tree() {
    let mut yarn = directory();
    yarn.yarn_lock = true;
    let dirs = vec![directory(), yarn];
    let (manager, version, index) = find_package_manager(&None, &dirs);
    assert_eq!(manager, "yarn");
    assert_eq!(version, None);
    assert_eq!(index, 1);
    let (manager, version, index) = find_package_manager(&Some("bun@1.1".into()), &dirs);
    assert_eq!(manager, "bun");
    assert_eq!(version.as_deref(), Some("1.1"));
    assert_eq!(index, 0);
    let mut workspace = directory();
    workspace.pnpm_workspace = true;
    assert!(repository_has_pnpm_workspace(&vec![directory(), workspace.clone()], 0));
    let mut root = directory();
    root.git = true;
    assert!(!repository_has_pnpm_workspace(&vec![root, workspace], 0));
}

#[test]
fn pnpm_versions_follow_the_lockfile_format() {
    assert_eq!(inferred_pnpm_version("lockfileVersion: '6.0'\n"), "8");
    assert_eq!(inferred_pnpm_version("lockfileVersion: '9.0'\n"), "9");
    assert_eq!(inferred_pnpm_version("lockfileVersion: 5.4\n"), "10");
    assert_eq!(read_first(&vec![None, Some(" 18 ".into())]).as_deref(), Some("18"));
    assert_eq!(read_first(&vec![Some("  ".into())]), None);
}
