//! The CGI environment builder: path reconstruction, the managed
//! variables, and the PATH_INFO / PATH_TRANSLATED exclusivity.

use crate_proxy::cgi::{build_path, Cgi};

fn vars(c: &Cgi) -> Vec<(String, String)> {
    c.env_vars()
}

fn lookup<'a>(vars: &'a [(String, String)], k: &str) -> Option<&'a str> {
    vars.iter().find(|(n, _)| n.as_str() == k).map(|(_, v)| v.as_str())
}

fn segs(parts: &[&str]) -> Vec<String> {
    parts.iter().map(|s| s.to_string()).collect()
}

#[test]
fn path_reconstruction_drops_empty_segments() {
    assert_eq!(build_path(&segs(&["", "foo", "", "bar"])), "/foo/bar");
    assert_eq!(build_path(&segs(&["a", "b", "c"])), "/a/b/c");
}

#[test]
fn no_segments_yield_the_empty_path() {
    assert_eq!(build_path(&segs(&[])), "");
    assert_eq!(build_path(&segs(&[""])), "");
}

#[test]
fn fresh_set_carries_the_fixed_tag_and_get() {
    let c = Cgi::new("git");
    let v = vars(&c);
    assert_eq!(lookup(&v, "GATEWAY_INTERFACE"), Some("CGI/1.1"));
    assert_eq!(lookup(&v, "REQUEST_METHOD"), Some("GET"));
    assert_eq!(lookup(&v, "PATH_INFO"), None);
    assert_eq!(lookup(&v, "PATH_TRANSLATED"), None);
    assert_eq!(lookup(&v, "QUERY_STRING"), None);
    assert_eq!(lookup(&v, "CONTENT_TYPE"), None);
    assert_eq!(lookup(&v, "CONTENT_LENGTH"), None);
    assert_eq!(c.program, "git");
}

#[test]
fn setting_path_info_removes_path_translated() {
    let mut c = Cgi::new("git");
    c.set_path_translared("/tmp/a".to_string());
    c.set_path("/info/refs".to_string());
    let v = vars(&c);
    assert_eq!(lookup(&v, "PATH_INFO"), Some("/info/refs"));
    assert_eq!(lookup(&v, "PATH_TRANSLATED"), None);
}

#[test]
fn setting_path_translated_removes_path_info() {
    let mut c = Cgi::new("git");
    c.set_path("/info/refs".to_string());
    c.set_path_translared("/tmp/a".to_string());
    let v = vars(&c);
    assert_eq!(lookup(&v, "PATH_TRANSLATED"), Some("/tmp/a"));
    assert_eq!(lookup(&v, "PATH_INFO"), None);
}

#[test]
fn from_request_inherits_the_request() {
    let query = "service=git-upload-pack".to_string();
    let ct = "application/x-git-upload-pack-request".to_string();
    let c = Cgi::from_request(
        "git",
        "POST",
        &segs(&["", "index", "info", "refs"]),
        Some(&query),
        Some(&ct),
    );
    let v = vars(&c);
    assert_eq!(lookup(&v, "REQUEST_METHOD"), Some("POST"));
    assert_eq!(lookup(&v, "PATH_INFO"), Some("/index/info/refs"));
    assert_eq!(lookup(&v, "QUERY_STRING"), Some("service=git-upload-pack"));
    assert_eq!(
        lookup(&v, "CONTENT_TYPE"),
        Some("application/x-git-upload-pack-request")
    );
    assert_eq!(lookup(&v, "CONTENT_LENGTH"), None);
}

#[test]
fn absent_query_and_type_are_omitted() {
    let c = Cgi::from_request("git", "GET", &segs(&["repo"]), None, None);
    let v = vars(&c);
    assert_eq!(lookup(&v, "QUERY_STRING"), None);
    assert_eq!(lookup(&v, "CONTENT_TYPE"), None);
}

#[test]
fn dispatch_records_the_body_headers() {
    // the dispatcher buffers the whole request body and hands it over
    // in one pass, so its length is known before the spawn
    let mut c = Cgi::from_request("git", "POST", &segs(&["repo"]), None, None);
    c.set_content_length("42".to_string());
    c.set_content_type("application/octet-stream".to_string());
    let v = vars(&c);
    assert_eq!(lookup(&v, "CONTENT_LENGTH"), Some("42"));
    assert_eq!(lookup(&v, "CONTENT_TYPE"), Some("application/octet-stream"));
}

#[test]
fn extras_and_args_ride_along() {
    let mut c = Cgi::new("git");
    c.arg("http-backend");
    c.env("GIT_PROJECT_ROOT", "/srv/index/.git");
    c.env("GIT_HTTP_EXPORT_ALL", "1");
    let v = vars(&c);
    assert_eq!(lookup(&v, "GIT_PROJECT_ROOT"), Some("/srv/index/.git"));
    assert_eq!(lookup(&v, "GIT_HTTP_EXPORT_ALL"), Some("1"));
    assert_eq!(c.args, vec!["http-backend".to_string()]);
}

#[test]
fn malformed_values_pass_through_unchanged() {
    // no validation beyond the structure: a strange method or query
    // reaches the backend verbatim
    let q = "a=%ZZ&&& =".to_string();
    let c = Cgi::from_request("git", "BREW", &segs(&["x"]), Some(&q), None);
    let v = vars(&c);
    assert_eq!(lookup(&v, "REQUEST_METHOD"), Some("BREW"));
    assert_eq!(lookup(&v, "QUERY_STRING"), Some("a=%ZZ&&& ="));
}
