use std::collections::HashMap;

use localhost::error_pages::{custom_page_path, error_page_path, page_path_from, underscored};
use localhost::server_config::{ServerAddress, ServerConfig};

fn config(pages: &[(u16, &str)]) -> ServerConfig {
    let mut error_msg = HashMap::new();
    for (code, name) in pages {
        error_msg.insert(*code, name.to_string());
    }
    ServerConfig {
        server_name: "test".to_string(),
        server_address: vec![ServerAddress { ip: "127.0.0.1".to_string(), port: 8080 }],
        max_body_size: 1024,
        router: vec![],
        error_msg,
    }
}

#[test]
fn spaces_become_underscores() {
    assert_eq!(underscored("Not Found"), "Not_Found");
    assert_eq!(underscored(""), "");
    assert_eq!(underscored("  a  b "), "__a__b_");
    assert_eq!(underscored("no-space_here"), "no-space_here");
    assert_eq!(underscored("tab\tand\u{a0}stay"), "tab\tand\u{a0}stay");
    assert_eq!(underscored("\u{c9}t\u{e9} \u{1f600} x"), "\u{c9}t\u{e9}_\u{1f600}_x");
}

#[test]
fn page_path_is_in_the_html_directory() {
    assert_eq!(page_path_from("not_found"), "html/not_found.html");
    assert_eq!(page_path_from(""), "html/.html");
    assert_eq!(page_path_from("\u{e9}t\u{e9}"), "html/\u{e9}t\u{e9}.html");
}

#[test]
fn error_page_path_is_lower_case_with_underscores() {
    assert_eq!(error_page_path("Not Found"), "html/not_found.html");
    assert_eq!(error_page_path("Internal Server Error"), "html/internal_server_error.html");
    assert_eq!(error_page_path("404"), "html/404.html");
    assert_eq!(error_page_path("\u{c9}T\u{c9} Page"), "html/\u{e9}t\u{e9}_page.html");
    for name in ["Bad Request", "A  B", "MiXeD case_Name", "\u{3a3}\u{391} \u{130}"] {
        assert_eq!(
            error_page_path(name),
            format!("html/{}.html", name.replace(' ', "_").to_lowercase())
        );
    }
}

#[test]
fn custom_page_path_follows_the_configuration() {
    let server = config(&[(404, "Not Found"), (500, "Server Error")]);
    assert_eq!(custom_page_path(&server, 404), Some("html/not_found.html".to_string()));
    assert_eq!(custom_page_path(&server, 500), Some("html/server_error.html".to_string()));
    assert_eq!(custom_page_path(&server, 403), None);
    assert_eq!(custom_page_path(&config(&[]), 404), None);
}
