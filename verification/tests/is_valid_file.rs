use assembler::is_valid_file;
use tempfile::tempdir;
use tempfile::Builder;

#[test]
fn test_invalid_extension() {
    let dir = tempdir().unwrap();
    let file = Builder::new()
        .prefix("test")
        .suffix(".txt")
        .rand_bytes(0)
        .tempfile_in(dir.path())
        .unwrap();
    let file_path = file.path();
    assert!(file_path.ends_with("test.txt"));

    assert!(!is_valid_file(file_path.to_str().unwrap(), file_path.exists()));
}

#[test]
fn test_valid_file_exists() {
    let dir = tempdir().unwrap();
    let file = Builder::new()
        .prefix("test_file")
        .suffix(".s")
        .rand_bytes(0)
        .tempfile_in(dir.path())
        .unwrap();
    let file_path = file.path();
    assert!(file_path.ends_with("test_file.s"));
    assert!(is_valid_file(file_path.to_str().unwrap(), file_path.exists()));
}

#[test]
fn test_file_does_not_exist() {
    let dir = tempdir().unwrap();
    let file_path = dir.path().join("nonexistent.s");
    assert!(!is_valid_file(file_path.to_str().unwrap(), file_path.exists()));
}

#[test]
fn test_extension_alone_decides_nothing() {
    assert!(is_valid_file("program.s", true));
    assert!(!is_valid_file("program.s", false));
    assert!(!is_valid_file("program.txt", true));
    assert!(!is_valid_file("program.txt", false));
}

#[test]
fn test_extension_edge_cases() {
    assert!(is_valid_file(".s", true));
    assert!(!is_valid_file("s", true));
    assert!(!is_valid_file("", true));
    assert!(!is_valid_file(".", true));
    assert!(!is_valid_file("a.S", true));
    assert!(!is_valid_file("a.s ", true));
    assert!(!is_valid_file("a.sx", true));
    assert!(is_valid_file("dir.d/a.b.s", true));
    assert!(is_valid_file("\u{e9}t\u{e9}.s", true));
    assert!(!is_valid_file("a.\u{455}", true));
}
