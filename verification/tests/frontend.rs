use blend_render::frontend::{frontend_file, frontend_page, get_content_type, Page};
use blend_render::reply::{Reply, Status};

#[test]
fn content_types() {
    assert_eq!(get_content_type("index.html"), "text/html");
    assert_eq!(get_content_type("assets/a.b.css"), "text/css");
    assert_eq!(get_content_type("x.js"), "application/javascript");
    assert_eq!(get_content_type("x.json"), "application/json");
    assert_eq!(get_content_type("x.png"), "image/png");
    assert_eq!(get_content_type("x.jpg"), "image/jpeg");
    assert_eq!(get_content_type("x.jpeg"), "image/jpeg");
    assert_eq!(get_content_type("x.webp"), "image/webp");
    assert_eq!(get_content_type("x.gif"), "image/gif");
    assert_eq!(get_content_type("x.svg"), "image/svg+xml");
    assert_eq!(get_content_type("x.ico"), "image/x-icon");
    assert_eq!(get_content_type("x.woff"), "font/woff");
    assert_eq!(get_content_type("x.woff2"), "font/woff2");
    assert_eq!(get_content_type("x.ttf"), "font/ttf");
    assert_eq!(get_content_type("x.eot"), "application/vnd.ms-fontobject");
}

#[test]
fn other_content_types() {
    assert_eq!(get_content_type("x.HTML"), "application/octet-stream");
    assert_eq!(get_content_type("html."), "application/octet-stream");
    assert_eq!(get_content_type(""), "application/octet-stream");
    assert_eq!(get_content_type("html"), "text/html");
}

#[test]
fn start_page_is_the_default() {
    assert_eq!(frontend_file(None), "index.html");
    assert_eq!(frontend_file(Some("".to_string())), "index.html");
    assert_eq!(frontend_file(Some("/".to_string())), "index.html");
    assert_eq!(frontend_file(Some("assets/a.js".to_string())), "assets/a.js");
}

#[test]
fn pages() {
    assert_eq!(
        frontend_page("a.css", true, true),
        Page::File("text/css".to_string())
    );
    assert_eq!(frontend_page("settings", false, true), Page::Index("text/html".to_string()));
    assert_eq!(
        frontend_page("settings", false, false),
        Page::Missing(Reply { status: Status::NotFound, body: "404 Not Found".to_string() })
    );
    assert_eq!(
        frontend_page("index.html", false, false),
        Page::Missing(Reply { status: Status::NotFound, body: "Frontend not found".to_string() })
    );
}
