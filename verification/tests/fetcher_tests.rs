use github_fetch::error::status_ok;
use github_fetch::error::FetchError;
use github_fetch::fetcher::auth_header_value;
use github_fetch::fetcher::build_api_url;
use github_fetch::fetcher::interpret_response;
use github_fetch::resolver::RepoFileRef;

#[test]
fn api_url_for_readme() {
    let rf = RepoFileRef {
        owner: String::from("octocat"),
        repo: String::from("Hello-World"),
        git_ref: String::from("master"),
        path: String::from("README.md"),
    };
    assert_eq!(
        build_api_url(&rf),
        "https://api.github.com/repos/octocat/Hello-World/contents/README.md?ref=master"
    );
}

#[test]
fn api_url_keeps_path_verbatim() {
    let rf = RepoFileRef {
        owner: String::from("o"),
        repo: String::from("r"),
        git_ref: String::from("main"),
        path: String::from("a dir/b file.txt"),
    };
    assert_eq!(
        build_api_url(&rf),
        "https://api.github.com/repos/o/r/contents/a dir/b file.txt?ref=main"
    );
}

#[test]
fn auth_header_uses_legacy_token_scheme() {
    assert_eq!(auth_header_value("abc123"), "token abc123");
}

#[test]
fn status_404_fails_with_that_status() {
    let r = interpret_response(404, "{\"message\":\"Not Found\"}");
    assert_eq!(r, Err(FetchError::RequestFailed(404)));
}

#[test]
fn status_500_fails_with_that_status() {
    let r = interpret_response(500, "oops");
    assert_eq!(r, Err(FetchError::RequestFailed(500)));
}

#[test]
fn status_301_fails_with_that_status() {
    let r = interpret_response(301, "");
    assert_eq!(r, Err(FetchError::RequestFailed(301)));
}

#[test]
fn success_json_is_handed_back_unchanged() {
    let body = "{\"name\":\"README.md\",\"content\":\"SGVsbG8=\"}";
    let v = interpret_response(200, body).unwrap();
    let expected: serde_json::Value = serde_json::from_str(body).unwrap();
    assert_eq!(v, expected);
    assert_eq!(v["name"], "README.md");
    assert_eq!(v["content"], "SGVsbG8=");
}

#[test]
fn success_array_body_is_handed_back() {
    let body = "[1, 2, 3]";
    let v = interpret_response(204, body).unwrap();
    let expected: serde_json::Value = serde_json::from_str(body).unwrap();
    assert_eq!(v, expected);
}

#[test]
fn non_json_body_is_a_decode_error() {
    let r = interpret_response(200, "plain text");
    assert_eq!(r, Err(FetchError::DecodeError));
}

#[test]
fn empty_body_is_a_decode_error() {
    let r = interpret_response(200, "");
    assert_eq!(r, Err(FetchError::DecodeError));
}

#[test]
fn status_boundaries() {
    assert!(status_ok(200));
    assert!(status_ok(299));
    assert!(!status_ok(199));
    assert!(!status_ok(300));
}
