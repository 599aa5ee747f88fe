use github_fetch::error::FetchError;
use github_fetch::resolver::resolve;

#[test]
fn parse_full_https_url() {
    let r = resolve("https://github.com/octocat/Hello-World/blob/master/README.md").unwrap();
    assert_eq!(r.owner, "octocat");
    assert_eq!(r.repo, "Hello-World");
    assert_eq!(r.git_ref, "master");
    assert_eq!(r.path, "README.md");
}

#[test]
fn parse_http_scheme() {
    let r = resolve("http://github.com/alice/widgets/blob/v1.2/src/lib.rs").unwrap();
    assert_eq!(r.owner, "alice");
    assert_eq!(r.repo, "widgets");
    assert_eq!(r.git_ref, "v1.2");
    assert_eq!(r.path, "src/lib.rs");
}

#[test]
fn parse_without_scheme() {
    let r = resolve("github.com/a/b/blob/main/dir/file.txt").unwrap();
    assert_eq!(r.owner, "a");
    assert_eq!(r.repo, "b");
    assert_eq!(r.git_ref, "main");
    assert_eq!(r.path, "dir/file.txt");
}

#[test]
fn parse_inside_surrounding_text() {
    let r = resolve("see github.com/a/b/blob/c/d e").unwrap();
    assert_eq!(r.owner, "a");
    assert_eq!(r.repo, "b");
    assert_eq!(r.git_ref, "c");
    assert_eq!(r.path, "d e");
}

#[test]
fn parse_takes_leftmost_match() {
    let r = resolve("github.com/a/b/blob/c/github.com/x/y/blob/z/w").unwrap();
    assert_eq!(r.owner, "a");
    assert_eq!(r.repo, "b");
    assert_eq!(r.git_ref, "c");
    assert_eq!(r.path, "github.com/x/y/blob/z/w");
}

#[test]
fn parse_skips_incomplete_early_occurrence() {
    let r = resolve("github.com/only/two/github.com/x/y/blob/z/w").unwrap();
    assert_eq!(r.owner, "x");
    assert_eq!(r.repo, "y");
    assert_eq!(r.git_ref, "z");
    assert_eq!(r.path, "w");
}

#[test]
fn ref_with_slash_is_split_at_first_slash() {
    let r = resolve("https://github.com/o/r/blob/feature/new-thing/file.txt").unwrap();
    assert_eq!(r.git_ref, "feature");
    assert_eq!(r.path, "new-thing/file.txt");
}

#[test]
fn empty_input_is_malformed() {
    assert_eq!(resolve(""), Err(FetchError::MalformedUrl));
}

#[test]
fn other_host_is_malformed() {
    assert_eq!(
        resolve("https://gitlab.com/a/b/blob/c/d"),
        Err(FetchError::MalformedUrl)
    );
}

#[test]
fn tree_url_is_malformed() {
    assert_eq!(
        resolve("https://github.com/a/b/tree/main/src"),
        Err(FetchError::MalformedUrl)
    );
}

#[test]
fn missing_repo_segment_is_malformed() {
    assert_eq!(
        resolve("github.com/a/blob/c/d"),
        Err(FetchError::MalformedUrl)
    );
}

#[test]
fn empty_owner_is_malformed() {
    assert_eq!(
        resolve("github.com//b/blob/c/d"),
        Err(FetchError::MalformedUrl)
    );
}

#[test]
fn missing_path_is_malformed() {
    assert_eq!(resolve("github.com/a/b/blob/c"), Err(FetchError::MalformedUrl));
}

#[test]
fn empty_path_is_malformed() {
    assert_eq!(
        resolve("github.com/a/b/blob/c/"),
        Err(FetchError::MalformedUrl)
    );
}

#[test]
fn empty_ref_is_malformed() {
    assert_eq!(
        resolve("github.com/a/b/blob//d"),
        Err(FetchError::MalformedUrl)
    );
}
