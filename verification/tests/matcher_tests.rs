use permission_gateway::match_pattern;

#[test]
fn test_match_pattern_exact() {
    assert!(match_pattern("Bash(git *)", "Bash(git *)"));
    assert!(match_pattern("Read(~/.zshrc)", "Read(~/.zshrc)"));
}

#[test]
fn test_match_pattern_bash_wildcard() {
    assert!(match_pattern("Bash(git *)", "Bash(git push)"));
    assert!(match_pattern("Bash(git *)", "Bash(git pull origin main)"));
    assert!(match_pattern("Bash(npm *)", "Bash(npm install)"));
    assert!(match_pattern("Bash(npm run test:*)", "Bash(npm run test:unit)"));
}

#[test]
fn test_match_pattern_bash_no_match() {
    assert!(!match_pattern("Bash(git *)", "Bash(npm install)"));
    assert!(!match_pattern("Bash(npm *)", "Bash(git push)"));
}

#[test]
fn test_match_pattern_file_operations_single_star() {
    assert!(match_pattern("Read(src/*)", "Read(src/main.rs)"));
    assert!(match_pattern("Write(src/*)", "Write(src/lib.rs)"));
    assert!(!match_pattern("Read(src/*)", "Read(src/components/App.tsx)")); // * doesn't match /
}

#[test]
fn test_match_pattern_file_operations_double_star() {
    assert!(match_pattern("Read(src/**)", "Read(src/main.rs)"));
    assert!(match_pattern("Read(src/**)", "Read(src/components/App.tsx)"));
    assert!(match_pattern("Write(**/*.rs)", "Write(src/main.rs)"));
    assert!(match_pattern("Write(**/*.rs)", "Write(tests/integration/test.rs)"));
}

#[test]
fn test_match_pattern_file_operations_no_match() {
    assert!(!match_pattern("Read(src/**)", "Read(tests/test.rs)"));
    assert!(!match_pattern("Write(**/*.rs)", "Write(src/main.ts)"));
}

#[test]
fn test_match_pattern_specific_file() {
    assert!(match_pattern("Read(~/.zshrc)", "Read(~/.zshrc)"));
    assert!(!match_pattern("Read(~/.zshrc)", "Read(~/.bashrc)"));
}

#[test]
fn test_match_pattern_glob_and_grep() {
    assert!(match_pattern("Glob(**/*.tsx)", "Glob(**/*.tsx)"));
    assert!(match_pattern("Grep(src/**)", "Grep(src/**)"));
}

#[test]
fn test_match_pattern_complex_paths() {
    assert!(match_pattern("Write(src/**)", "Write(src/components/ui/Button.tsx)"));
    assert!(match_pattern("Read(/etc/**)", "Read(/etc/nginx/nginx.conf)"));
}

#[test]
fn test_match_pattern_case_sensitive() {
    assert!(!match_pattern("Bash(Git *)", "Bash(git push)"));
    assert!(!match_pattern("Read(SRC/**)", "Read(src/main.rs)"));
}

#[test]
fn test_match_pattern_tool_name_matters() {
    assert!(!match_pattern("Read(src/**)", "Write(src/main.rs)"));
    assert!(!match_pattern("Bash(git *)", "Read(git status)"));
}

#[test]
fn test_match_pattern_without_tool_shape() {
    assert!(!match_pattern("Bash", "Bash"));
    assert!(!match_pattern("Bash(git *)", "Bash git push"));
    assert!(!match_pattern("Bash git *", "Bash(git push)"));
}

#[test]
fn test_match_pattern_exact_with_glob_special_characters() {
    assert!(match_pattern("Read(a[b].$(c)\\d)", "Read(a[b].$(c)\\d)"));
    assert!(match_pattern("Grep(foo.*[ab]$)", "Grep(foo.*[ab]$)"));
}

#[test]
fn test_match_pattern_literal_specials_not_regex() {
    // A dot in the pattern stands for itself, never for "any character".
    assert!(!match_pattern("Read(src/main.rs)", "Read(src/mainxrs)"));
    // Brackets stand for themselves, never for a character class.
    assert!(!match_pattern("Read([ab])", "Read(a)"));
}

#[test]
fn test_match_pattern_double_star_spans_separators() {
    assert!(match_pattern("Read(**)", "Read(a/b/c)"));
    assert!(match_pattern("Read(a/**/z)", "Read(a/b/c/z)"));
    assert!(!match_pattern("Read(a/*/z)", "Read(a/b/c/z)"));
}

#[test]
fn test_match_pattern_empty_path_portions() {
    assert!(match_pattern("Read()", "Read()"));
    assert!(!match_pattern("Read()", "Read(x)"));
    assert!(match_pattern("Read(*)", "Read()"));
}
