use crates_registry::cgi::{
    cgi_response_head, git_backend_env, parse_header_line, record_header, status_code, HeaderLine,
};
use crates_registry::layout::download_redirect;
use crates_registry::route::{route, Route};

fn pair(a: &str, b: &str) -> (String, String) {
    (a.to_string(), b.to_string())
}

#[test]
fn download_route_redirects_to_crate_file() {
    match route("GET", "/api/v1/crates/serde/1.0.0/download") {
        Route::Download { name, version } => {
            assert_eq!(download_redirect(&name, &version), "/crates/se/rd/serde-1.0.0.crate");
        }
        other => panic!("unexpected route {other:?}"),
    }
}

#[test]
fn route_table() {
    assert_eq!(
        route("GET", "/git/index/info/refs"),
        Route::Git { tail: "info/refs".to_string() }
    );
    assert_eq!(route("POST", "/git/index/git-upload-pack"), Route::Git { tail: "git-upload-pack".to_string() });
    assert_eq!(
        route("GET", "/crates/3/f/foo-0.1.0.crate"),
        Route::CrateFile { path: vec!["3".to_string(), "f".to_string(), "foo-0.1.0.crate".to_string()] }
    );
    assert_eq!(route("PUT", "/api/v1/crates/new"), Route::Publish);
    assert_eq!(route("GET", "/api/v1/crates/new"), Route::UiAsset { path: "api/v1/crates/new".to_string() });
    assert_eq!(
        route("GET", "/dist/channel-rust-stable.toml"),
        Route::Dist { path: vec!["channel-rust-stable.toml".to_string()] }
    );
    assert_eq!(
        route("GET", "/rustup/dist/x/rustup-init"),
        Route::Rustup { path: vec!["dist".to_string(), "x".to_string(), "rustup-init".to_string()] }
    );
    assert_eq!(route("GET", "/api/available-platforms"), Route::AvailablePlatforms);
    assert_eq!(route("GET", "/api/versions"), Route::Versions);
    assert_eq!(route("PUT", "/api/load-pack-file"), Route::LoadPackFile);
    assert_eq!(route("GET", "/"), Route::UiIndex);
    assert_eq!(route("GET", "/static/app.js"), Route::UiAsset { path: "static/app.js".to_string() });
    assert_eq!(route("DELETE", "/api/versions"), Route::NotFound);
    assert_eq!(route("GET", "relative"), Route::NotFound);
    assert_eq!(
        route("GET", "/api/v1/crates//1.0.0/download"),
        Route::UiAsset { path: "api/v1/crates//1.0.0/download".to_string() }
    );
}

#[test]
fn backend_environment() {
    let env = git_backend_env("/tmp/r/index", "info/refs", "GET", "service=git-upload-pack", None, None);
    assert_eq!(
        env,
        vec![
            pair("GIT_PROJECT_ROOT", "/tmp/r/index"),
            pair("PATH_INFO", "/info/refs"),
            pair("REQUEST_METHOD", "GET"),
            pair("QUERY_STRING", "service=git-upload-pack"),
            pair("REMOTE_USER", ""),
            pair("REMOTE_ADDR", "127.0.0.1"),
            pair("GIT_HTTP_EXPORT_ALL", "true"),
        ]
    );
    let env = git_backend_env("/r", "x", "POST", "", Some("10.0.0.2"), Some("application/x-git-upload-pack-request"));
    assert_eq!(env[5], pair("REMOTE_ADDR", "10.0.0.2"));
    assert_eq!(env[6], pair("CONTENT_TYPE", "application/x-git-upload-pack-request"));
    assert_eq!(env.len(), 8);
}

#[test]
fn backend_header_block() {
    assert_eq!(parse_header_line("\r\n"), HeaderLine::End);
    assert_eq!(parse_header_line(""), HeaderLine::End);
    assert_eq!(
        parse_header_line("Content-Type: application/x-git-upload-pack-advertisement\r\n"),
        HeaderLine::Header {
            key: "Content-Type".to_string(),
            value: "application/x-git-upload-pack-advertisement".to_string()
        }
    );
    assert_eq!(
        parse_header_line("Status: 404 Not Found\n"),
        HeaderLine::Header { key: "Status".to_string(), value: "404 Not Found".to_string() }
    );
    assert_eq!(parse_header_line("garbage\n"), HeaderLine::Other);
    assert_eq!(status_code("200 OK"), Some(200));
    assert_eq!(status_code("404"), Some(404));
    assert_eq!(status_code("20"), None);
    assert_eq!(status_code("099"), None);

    let mut headers = Vec::new();
    record_header(&mut headers, "Expires".to_string(), "Fri, 01 Jan 1980".to_string());
    record_header(&mut headers, "Status".to_string(), "500 Oops".to_string());
    record_header(&mut headers, "Content-Type".to_string(), "text/plain".to_string());
    record_header(&mut headers, "Status".to_string(), "403 Forbidden".to_string());
    assert_eq!(headers.len(), 3);
    let head = cgi_response_head(&headers).unwrap();
    assert_eq!(head.status, 403);
    assert_eq!(head.headers, vec![pair("Expires", "Fri, 01 Jan 1980"), pair("Content-Type", "text/plain")]);
    let plain = cgi_response_head(&vec![pair("Content-Type", "text/plain")]).unwrap();
    assert_eq!(plain.status, 200);
    assert!(cgi_response_head(&vec![pair("Status", "OK")]).is_none());
}
