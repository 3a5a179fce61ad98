use c_drive_cleaner::config_refs::{
    find_config_references, is_plain_text_candidate, known_config_dirs, known_config_files,
    looks_binary, normalize_for_search, path_display_without_username, ConfigFile,
    ConfigSearchRoots,
};

fn roots() -> ConfigSearchRoots {
    ConfigSearchRoots {
        user_profile: r"C:\Users\Alice".to_string(),
    }
}

#[test]
fn detects_candidate_path_inside_plain_text_config() {
    let candidate = r"C:\Users\Alice\.vscode\extensions\highagency.pencildev-0.6.51";
    let config = ConfigFile {
        path: r"C:\Users\Alice\.codex\config.toml".to_string(),
        contents: Some(
            format!("command = '{}\\\\out\\\\mcp-server-windows-x64.exe'", candidate.replace('\\', "\\\\"))
                .into_bytes(),
        ),
    };
    let refs = find_config_references(candidate, &roots(), &vec![config]);
    assert_eq!(refs.len(), 1);
    assert_eq!(refs[0].display_name, r"用户配置\.codex\config.toml");
    assert!(!refs[0].display_name.contains("Alice"));
}

#[test]
fn detects_candidate_with_forward_slashes_and_other_case() {
    let config = ConfigFile {
        path: r"C:\Users\Alice\.codex.json".to_string(),
        contents: Some(br#"{"args":["c:/users/alice/appdata/local/npm-cache/_npx/abc/node_modules/x.cjs"]}"#.to_vec()),
    };
    let refs = find_config_references(
        r"C:\Users\Alice\AppData\Local\npm-cache\_npx\abc",
        &roots(),
        &vec![config],
    );
    assert_eq!(refs.len(), 1);
    assert_eq!(refs[0].display_name, r"用户配置\.codex.json");
}

#[test]
fn ignores_binary_like_files() {
    let candidate = r"C:\Users\Alice\AppData\Local\npm-cache";
    let binary = ConfigFile {
        path: r"C:\Users\Alice\.codex\blob.json".to_string(),
        contents: Some({
            let mut bytes = vec![159u8, 146, 150, 0];
            bytes.extend_from_slice(candidate.as_bytes());
            bytes
        }),
    };
    let missing = ConfigFile {
        path: r"C:\Users\Alice\.codex\gone.json".to_string(),
        contents: None,
    };
    let wrong_extension = ConfigFile {
        path: r"C:\Users\Alice\.codex\blob.bin".to_string(),
        contents: Some(candidate.as_bytes().to_vec()),
    };
    let refs = find_config_references(candidate, &roots(), &vec![binary, missing, wrong_extension]);
    assert!(refs.is_empty());
}

#[test]
fn config_locations_are_fixed_below_the_profile() {
    assert_eq!(
        known_config_files(&roots()),
        vec![r"C:\Users\Alice\.codex.json".to_string()]
    );
    assert_eq!(known_config_dirs(&roots()).len(), 4);
    assert_eq!(known_config_dirs(&roots())[3], r"C:\Users\Alice\.trae");
}

#[test]
fn search_form_collapses_backslashes_and_lowercases() {
    let form: String = normalize_for_search(r"C:\\Users//Alice\X").into_iter().collect();
    assert_eq!(form, r"c:\users\alice\x");
}

#[test]
fn plain_text_and_binary_checks() {
    assert!(is_plain_text_candidate(r"C:\a\b.yml"));
    assert!(is_plain_text_candidate(r"C:\a\settings.conf"));
    assert!(!is_plain_text_candidate(r"C:\a\b.JSON"));
    assert!(!is_plain_text_candidate(r"C:\a\b"));
    assert!(looks_binary(&[1, 2, 0]));
    assert!(!looks_binary(&[1, 2, 3]));
    let mut late_zero = vec![1u8; 600];
    late_zero[550] = 0;
    assert!(!looks_binary(&late_zero));
}

#[test]
fn display_hides_user_folder() {
    assert_eq!(
        path_display_without_username(r"D:\elsewhere\x.json", r"C:\Users\Alice"),
        "用户配置文件"
    );
    assert_eq!(
        path_display_without_username(r"C:\Users\AliceB\x.json", r"C:\Users\Alice"),
        "用户配置文件"
    );
}

#[test]
fn detects_candidate_path_inside_root_json_with_escaped_backslashes() {
    let candidate = r"C:\Users\Alice\AppData\Local\npm-cache\_npx\abc";
    let escaped = candidate.replace('\\', "\\\\");
    let config = ConfigFile {
        path: r"C:\Users\Alice\.codex.json".to_string(),
        contents: Some(
            format!(r#"{{"args":["{}\\node_modules\\exa-mcp-server\\index.cjs"]}}"#, escaped).into_bytes(),
        ),
    };
    let refs = find_config_references(candidate, &roots(), &vec![config]);
    assert_eq!(refs.len(), 1);
    assert!(refs[0].display_name.contains(".codex.json"));
}
