use auric_core::fsview::is_excluded_dir_name;
use auric_core::fsview::is_text_extension;
use auric_core::fsview::should_filter_watcher_path;

#[test]
fn test_watcher_filters_git_paths() {
    assert!(should_filter_watcher_path("/home/user/project/.git/objects/abc123"));
    assert!(should_filter_watcher_path("/home/user/project/.git/refs/heads/main"));
    assert!(should_filter_watcher_path("/home/user/project/.git/index"));
}

#[test]
fn test_watcher_filters_node_modules() {
    assert!(should_filter_watcher_path("/home/user/project/node_modules/react/index.js"));
    assert!(should_filter_watcher_path(
        "/home/user/project/node_modules/.pnpm/some-pkg/node_modules/dep"
    ));
}

#[test]
fn test_watcher_filters_target_dir() {
    assert!(should_filter_watcher_path("/home/user/project/target/debug/build"));
    assert!(should_filter_watcher_path("/home/user/project/target/release/libmyapp.rlib"));
}

#[test]
fn test_watcher_allows_normal_paths() {
    assert!(!should_filter_watcher_path("/home/user/project/src/main.rs"));
    assert!(!should_filter_watcher_path("/home/user/project/README.md"));
    assert!(!should_filter_watcher_path("/home/user/project/src/app/page.tsx"));
    assert!(!should_filter_watcher_path("/home/user/project/.gitignore"));
}

#[test]
fn test_excluded_dir_names() {
    assert!(is_excluded_dir_name(".git"));
    assert!(is_excluded_dir_name("node_modules"));
    assert!(is_excluded_dir_name("target"));
    assert!(is_excluded_dir_name(".auric"));
    assert!(!is_excluded_dir_name("src"));
    assert!(!is_excluded_dir_name(".gitignore"));
}

#[test]
fn test_text_extensions() {
    for ext in ["ts", "tsx", "js", "jsx", "rs", "py", "md", "json", "html", "css", "toml", "yml", "yaml", "txt"] {
        assert!(is_text_extension(ext));
    }
    assert!(!is_text_extension("png"));
    assert!(!is_text_extension(""));
}
