use gpu_ecs_sync::clipboard::Clipboard;
use gpu_ecs_sync::default_title;
use gpu_ecs_sync::dirs::deployment_cache_path;
use gpu_ecs_sync::dirs::deployment_cache_path_in;
use gpu_ecs_sync::dirs::dirs;
use gpu_ecs_sync::dirs::settings_path;
use gpu_ecs_sync::dirs::settings_path_in;
use gpu_ecs_sync::files::FileCollection;
use gpu_ecs_sync::files::FindFileError;

#[test]
fn default_title_is_ambient() {
    assert_eq!(default_title(), "ambient");
}

#[test]
fn clipboard_stub_accepts_and_reads_empty() {
    let mut clipboard = Clipboard::new().expect("clipboard");
    assert!(clipboard.set_text("hello").is_ok());
    assert_eq!(clipboard.get_text().expect("text"), "");
}

#[test]
fn dirs_returns_configured_or_empty() {
    assert_eq!(dirs(&Some(String::from("/data/app"))), "/data/app");
    assert_eq!(dirs(&None), "");
}

#[test]
fn settings_path_join_is_exact() {
    assert_eq!(
        settings_path_in("/home/u/.config/ambient"),
        "/home/u/.config/ambient/settings.toml"
    );
}

#[test]
fn deployment_cache_path_join_is_exact() {
    assert_eq!(
        deployment_cache_path_in("/home/u/.cache/ambient", "alpha"),
        "/home/u/.cache/ambient/deployments/alpha"
    );
}

#[test]
fn settings_path_ends_with_settings_file() {
    if let Some(path) = settings_path() {
        assert!(path.ends_with("/settings.toml"));
    }
}

#[test]
fn deployment_cache_path_ends_with_deployment() {
    if let Some(path) = deployment_cache_path("alpha") {
        assert!(path.ends_with("/deployments/alpha"));
    }
}

fn sample_files() -> FileCollection {
    FileCollection(vec![
        String::from("assets/models/tree.glb"),
        String::from("assets/pipeline.json"),
        String::from("assets/audio/drop.ogg"),
        String::from("docs/readme.md"),
    ])
}

#[test]
fn has_input_file_finds_exact_paths() {
    let files = sample_files();
    assert!(files.has_input_file(&String::from("docs/readme.md")));
    assert!(!files.has_input_file(&String::from("docs/readme.txt")));
    assert!(!files.has_input_file(&String::from("docs")));
}

#[test]
fn find_file_matches_glob_patterns() {
    let files = sample_files();
    // Would fail if pattern matching handed its input back unchanged: the
    // pattern equals no path, yet selects exactly the ogg file.
    assert_eq!(
        files.find_file("assets/**/*.ogg"),
        Some(&String::from("assets/audio/drop.ogg"))
    );
    // The first of several matches wins.
    assert_eq!(
        files.find_file("assets/*"),
        Some(&String::from("assets/models/tree.glb"))
    );
    assert_eq!(files.find_file("*.wav"), None);
}

#[test]
fn find_file_res_reports_each_failure() {
    let files = sample_files();
    assert_eq!(
        files.find_file_res("assets/pipeline.json"),
        Ok(&String::from("assets/pipeline.json"))
    );
    assert_eq!(files.find_file_res("***"), Err(FindFileError::InvalidPattern));
    assert_eq!(files.find_file_res("*.wav"), Err(FindFileError::NotFound));
}

#[test]
fn sub_directory_keeps_matching_paths_in_order() {
    let files = sample_files();
    let assets = files.sub_directory("assets/");
    assert_eq!(
        assets.0,
        vec![
            String::from("assets/models/tree.glb"),
            String::from("assets/pipeline.json"),
            String::from("assets/audio/drop.ogg"),
        ]
    );
    let none = files.sub_directory("missing/");
    assert!(none.0.is_empty());
}
