use permission_gateway::PermissionStorage;

#[test]
fn test_format_pattern_bash_with_command() {
    let pattern = PermissionStorage::format_pattern(
        "Bash",
        "git push origin main",
        Some("git push origin main"),
    );
    assert_eq!(pattern, "Bash(git *)");
}

#[test]
fn test_format_pattern_bash_npm_run() {
    let pattern = PermissionStorage::format_pattern("Bash", "npm run test:unit", Some("npm run test:unit"));
    assert_eq!(pattern, "Bash(npm *)");
}

#[test]
fn test_format_pattern_read_specific_file() {
    let pattern = PermissionStorage::format_pattern("Read", "~/.zshrc", None);
    assert_eq!(pattern, "Read(~/.zshrc)");
}

#[test]
fn test_format_pattern_read_file_in_directory() {
    let pattern = PermissionStorage::format_pattern("Read", "src/main.rs", None);
    assert_eq!(pattern, "Read(src/**)");
}

#[test]
fn test_format_pattern_write_directory() {
    let pattern = PermissionStorage::format_pattern("Write", "src/components/new-file.tsx", None);
    assert_eq!(pattern, "Write(src/components/**)");
}

#[test]
fn test_format_pattern_edit_with_wildcard() {
    let pattern = PermissionStorage::format_pattern("Edit", "**/*.rs", None);
    assert_eq!(pattern, "Edit(**/*.rs)");
}

#[test]
fn test_format_pattern_bash_without_input() {
    let pattern = PermissionStorage::format_pattern("Bash", "git status", None);
    assert_eq!(pattern, "Bash(git status)");
}

#[test]
fn test_format_pattern_glob() {
    let pattern = PermissionStorage::format_pattern("Glob", "**/*.tsx", None);
    assert_eq!(pattern, "Glob(**/*.tsx)");
}

#[test]
fn test_format_pattern_grep() {
    let pattern = PermissionStorage::format_pattern("Grep", "src/**/*.rs", None);
    assert_eq!(pattern, "Grep(src/**/*.rs)");
}

#[test]
fn test_format_pattern_absolute_path_verbatim() {
    let pattern = PermissionStorage::format_pattern("Write", "/etc/nginx/nginx.conf", None);
    assert_eq!(pattern, "Write(/etc/nginx/nginx.conf)");
}

#[test]
fn test_format_pattern_directory_verbatim() {
    let pattern = PermissionStorage::format_pattern("Read", "src/components/", None);
    assert_eq!(pattern, "Read(src/components/)");
}

#[test]
fn test_format_pattern_other_tool_verbatim() {
    let pattern = PermissionStorage::format_pattern("WebFetch", "https://example.org", None);
    assert_eq!(pattern, "WebFetch(https://example.org)");
}

#[test]
fn test_format_pattern_drive_letter_verbatim() {
    let pattern = PermissionStorage::format_pattern("Read", "E:\\notes.txt", None);
    assert_eq!(pattern, "Read(E:\\notes.txt)");

    let pattern = PermissionStorage::format_pattern("Edit", "d:\\work\\todo.md", None);
    assert_eq!(pattern, "Edit(d:\\work\\todo.md)");

    let pattern = PermissionStorage::format_pattern("Write", "C:\\boot.ini", None);
    assert_eq!(pattern, "Write(C:\\boot.ini)");
}

#[test]
fn test_format_pattern_repeated_separators_collapse() {
    let pattern = PermissionStorage::format_pattern("Read", "a//b.rs", None);
    assert_eq!(pattern, "Read(a/**)");
}

#[test]
fn test_format_pattern_bash_unicode_whitespace() {
    // A no-break space delimits the first token, as any whitespace does.
    let pattern =
        PermissionStorage::format_pattern("Bash", "git\u{a0}push", Some("git\u{a0}push"));
    assert_eq!(pattern, "Bash(git *)");
}

#[test]
fn test_format_pattern_bash_blank_command() {
    // A command line with no token at all is kept as it stands.
    let pattern = PermissionStorage::format_pattern("Bash", "", Some("  "));
    assert_eq!(pattern, "Bash(   *)");
}
