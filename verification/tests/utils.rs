use md2ms::utils::{file_exists, get_base_filename, get_file_basedir, is_markdown, round_up};

#[test]
fn test_round_up_boundaries() {
    assert_eq!(round_up(0), 0);
    assert_eq!(round_up(100), 100);
    assert_eq!(round_up(101), 200);
    assert_eq!(round_up(17500), 17600);
    assert_eq!(round_up(17501), 18000);
}

#[test]
fn test_round_up_mid_range() {
    assert_eq!(round_up(99), 99);
    assert_eq!(round_up(250), 300);
    assert_eq!(round_up(200), 300);
    assert_eq!(round_up(17499), 17500);
    assert_eq!(round_up(20000), 20500);
    assert_eq!(round_up(20001), 20500);
}

#[test]
fn test_file_exists_missing() {
    assert!(!file_exists("no/such/path/anywhere.xyz"));
}

#[test]
fn test_get_base_filename_self() {
    let path = "examples/";
    let base = get_base_filename("examples/".to_string(), path.to_string());
    assert_eq!(base, "");
}

/// md2ms compile examples/short
#[test]
fn test_get_base_filename_short() {
    let path = "examples/short/scene1.md";
    let base = get_base_filename("examples/short".to_string(), path.to_string());
    assert_eq!(base, "scene1.md");
}

/// Similar to test_get_base_filename, but we've received the path to a file
/// md2ms compile examples/standalone.md
#[test]
fn test_get_base_filename_standalone() {
    let path = "standalone.md";
    let base = get_base_filename(
        "examples/standalone/standalone.md".to_string(),
        path.to_string(),
    );
    assert_eq!(base, "standalone.md");
}

#[test]
fn test_get_base_filename_nested() {
    let path = "examples/novella_with_parts/Act 1/Chapter 1/scene1.md";
    let base = get_base_filename("examples/novella_with_parts/".to_string(), path.to_string());
    assert_eq!(base, "Act 1/Chapter 1/scene1.md");
}

#[test]
fn test_get_file_basedir() {
    let path = "examples/novella_with_parts/Act 1/Chapter 1/scene1.md";
    let basedir = get_file_basedir(path.to_string());
    assert_eq!(basedir, "examples/novella_with_parts/Act 1/Chapter 1");
}

#[test]
fn test_get_file_basedir_no_directory() {
    assert_eq!(get_file_basedir("scene1.md".to_string()), "");
}

#[test]
fn test_get_base_filename_removes_every_occurrence() {
    let base = get_base_filename("ab".to_string(), "ab/x/ab/y.md".to_string());
    assert_eq!(base, "x//y.md");
}

#[test]
fn test_is_markdown() {
    assert!(is_markdown("examples/short/scene1.md"));
    assert!(is_markdown("scene1.md"));
    assert!(!is_markdown("scene1.MD"));
    assert!(!is_markdown("notes.txt"));
    assert!(!is_markdown(".md"));
    assert!(!is_markdown("dir.md/file"));
    assert!(is_markdown("archive.tar.md"));
}
