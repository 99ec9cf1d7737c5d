use roost::server::gitignore::{compile, matches_path};

fn matches(lines: &str, path: &str) -> bool {
    let patterns = compile(lines);
    matches_path(&patterns, path)
}

#[test]
fn basic_paths() {
    let lines = "abc/def\na/b/c\nb";
    assert!(matches(lines, "abc/def/child"));
    assert!(matches(lines, "a/b/c/d"));
    assert!(!matches(lines, "abc"));
    assert!(!matches(lines, "def"));
    assert!(!matches(lines, "bd"));
}

#[test]
fn negation() {
    let lines = "\n/*\n!/foo\n/foo/*\n!/foo/bar\n";
    assert!(matches(lines, "a"));
    assert!(matches(lines, "foo/baz"));
    assert!(!matches(lines, "foo"));
    assert!(!matches(lines, "/foo/bar"));
}

#[test]
fn comments_and_spaces() {
    let lines = "\n#\n# A comment\n\n# Another comment\n\n\n    # Invalid Comment\n\nabc/def\n";
    assert!(!matches(lines, "abc/abc"));
    assert!(matches(lines, "abc/def"));
}

#[test]
fn leading_slash() {
    let lines = "/a/b/c\nd/e/f\n/g";
    assert!(matches(lines, "a/b/c"));
    assert!(matches(lines, "a/b/c/d"));
    assert!(matches(lines, "d/e/f"));
    assert!(matches(lines, "g"));
}

#[test]
fn leading_special_chars() {
    let lines = "\n# Comment\n\\#file.txt\n\\!file.txt\nfile.txt\n";
    assert!(matches(lines, "#file.txt"));
    assert!(matches(lines, "!file.txt"));
    assert!(matches(lines, "a/!file.txt"));
    assert!(matches(lines, "file.txt"));
    assert!(matches(lines, "a/file.txt"));
    assert!(!matches(lines, "file2.txt"));
}

#[test]
fn all_files_in_dir() {
    let lines = "Documentation/*.html\n";
    assert!(matches(lines, "Documentation/git.html"));
    assert!(!matches(lines, "Documentation/ppc/ppc.html"));
    assert!(!matches(lines, "tools/perf/Documentation/perf.html"));
}

#[test]
fn double_star() {
    let lines = "**/foo\nbar";
    assert!(matches(lines, "foo"));
    assert!(matches(lines, "baz/foo"));
    assert!(matches(lines, "bar"));
    assert!(matches(lines, "baz/bar"));
}

#[test]
fn leading_slash_path() {
    let lines = "/*.c";
    assert!(matches(lines, "hello.c"));
    assert!(!matches(lines, "foo/hello.c"));
}

#[test]
fn wildcard_files() {
    let lines = "*.swp\n/foo/*.wat\nbar/*.txt";
    assert!(matches(lines, "yo.swp"));
    assert!(matches(lines, "something/else/but/it/hasyo.swp"));
    assert!(matches(lines, "foo/bar.wat"));
    assert!(matches(lines, "/foo/something.wat"));
    assert!(matches(lines, "bar/something.txt"));
    assert!(matches(lines, "/bar/somethingelse.txt"));
    assert!(!matches(lines, "something/not/infoo/wat.wat"));
    assert!(!matches(lines, "something/not/infoo/wat.txt"));
}

#[test]
fn preceding_slash() {
    let lines = "/foo\nbar/";
    assert!(matches(lines, "foo/bar.wat"));
    assert!(matches(lines, "/foo/something.txt"));
    assert!(matches(lines, "bar/something.txt"));
    assert!(matches(lines, "/bar/somethingelse.go"));
    assert!(matches(lines, "/boo/something/bar/boo.txt"));
    assert!(!matches(lines, "something/foo/something.txt"));
}

#[test]
fn nested_dot_files() {
    let lines = "**/external/**/*.md\n**/external/**/*.json\n**/external/**/*.gzip\n**/external/**/.*ignore\n**/external/foobar/*.css\n**/external/barfoo/less\n**/external/barfoo/scss";
    assert!(matches(lines, "external/foobar/angular.foo.css"));
    assert!(matches(lines, "external/barfoo/.gitignore"));
    assert!(matches(lines, "external/barfoo/.bower.json"));
}

#[test]
fn carriage_return() {
    let lines = "abc/def\r\na/b/c\r\nb\r";
    assert!(matches(lines, "abc/def/child"));
    assert!(matches(lines, "a/b/c/d"));
    assert!(!matches(lines, "abc"));
    assert!(!matches(lines, "def"));
    assert!(!matches(lines, "bd"));
}

#[test]
fn the_last_matching_pattern_decides() {
    let lines = "*.log\n!keep.log\nkeep.log";
    assert!(matches(lines, "keep.log"));
    let lines = "*.log\n!keep.log";
    assert!(!matches(lines, "keep.log"));
    assert!(matches(lines, "other.log"));
}

#[test]
fn no_patterns_ignore_nothing() {
    assert!(!matches("", "anything"));
    assert!(!matches("# only a comment\n\n", "anything"));
}
