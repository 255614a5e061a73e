use fbws::{
    dispatch, generate_view, make_views, read_text, route, web_path, BuildError, SourceFile, View,
    HOME_FILE, NOT_FOUND_FILE, STATUS_NOT_FOUND, STATUS_OK,
};

fn file(path: &str, text: &str) -> SourceFile {
    SourceFile { path: path.to_string(), is_dir: false, contents: Some(text.as_bytes().to_vec()) }
}

fn unreadable(path: &str) -> SourceFile {
    SourceFile { path: path.to_string(), is_dir: false, contents: None }
}

fn directory(path: &str) -> SourceFile {
    SourceFile { path: path.to_string(), is_dir: true, contents: None }
}

fn page(path: &str, body: &str) -> View {
    View { web_path: path.to_string(), source: body.to_string() }
}

fn sample_pages() -> Vec<View> {
    vec![
        page("/home", "HOME"),
        page("/404", "MISSING"),
        page("/about", "ABOUT"),
        page("/blog", "BLOG"),
    ]
}

fn compile_site(listing: Option<Vec<SourceFile>>) -> Result<Vec<View>, BuildError> {
    make_views(
        "./pages",
        &file("theme.css", "body{color:red}"),
        "Demo",
        &file("header.html", "<nav>Home</nav>"),
        &file(HOME_FILE, "<h1>Home page!</h1>"),
        &file(NOT_FOUND_FILE, "<h1>404 Page!</h1>"),
        &listing,
    )
}

#[test]
fn about_page_scenario() {
    let views = compile_site(Some(vec![file("./pages/about.html", "<p>About us</p>")])).unwrap();
    assert_eq!(views.len(), 3);
    let about = &views[2];
    assert_eq!(about.web_path, "/about");
    assert!(about.source.contains("<p>About us</p>"));
    assert!(about.source.contains("body{color:red}"));
    assert!(about.source.contains("<nav>Home</nav>"));
    assert!(about.source.contains("about on Demo"));
}

#[test]
fn fixed_slots_with_empty_directory() {
    let views = compile_site(Some(vec![])).unwrap();
    assert_eq!(views.len(), 2);
    assert_eq!(views[0].web_path, "/home");
    assert!(views[0].source.contains("<h1>Home page!</h1>"));
    assert!(views[0].source.contains("home on Demo"));
    assert_eq!(views[1].web_path, "/404");
    assert!(views[1].source.contains("<h1>404 Page!</h1>"));
}

#[test]
fn one_page_per_content_file_in_order() {
    let views = compile_site(Some(vec![
        file("./pages/b.html", "B"),
        file("./pages/a.html", "A"),
        file("./pages/c.htm", "C"),
    ]))
    .unwrap();
    let paths: Vec<&str> = views.iter().map(|v| v.web_path.as_str()).collect();
    assert_eq!(paths, vec!["/home", "/404", "/b", "/a", "/c"]);
}

#[test]
fn directories_are_skipped_and_later_files_kept() {
    let views = compile_site(Some(vec![
        file("./pages/a.html", "A"),
        directory("./pages/sub"),
        file("./pages/b.html", "B"),
    ]))
    .unwrap();
    assert_eq!(views.len(), 4);
    assert_eq!(views[2].web_path, "/a");
    assert_eq!(views[3].web_path, "/b");
}

#[test]
fn compiling_twice_gives_the_same_pages() {
    let listing = Some(vec![file("./pages/a.html", "A"), file("./pages/b.html", "B")]);
    let first = compile_site(listing.clone()).unwrap();
    let second = compile_site(listing).unwrap();
    assert_eq!(first, second);
}

#[test]
fn unreadable_home_file_fails() {
    let r = make_views(
        "./pages",
        &file("theme.css", ""),
        "Demo",
        &file("header.html", ""),
        &unreadable(HOME_FILE),
        &file(NOT_FOUND_FILE, ""),
        &Some(vec![]),
    );
    assert_eq!(r, Err(BuildError::ReadFailed("home.html".to_string())));
}

#[test]
fn theme_that_is_not_utf8_fails() {
    let theme = SourceFile { path: "theme.css".to_string(), is_dir: false, contents: Some(vec![0x66, 0xff]) };
    let r = make_views(
        "./pages",
        &theme,
        "Demo",
        &file("header.html", ""),
        &file(HOME_FILE, ""),
        &file(NOT_FOUND_FILE, ""),
        &Some(vec![]),
    );
    assert_eq!(r, Err(BuildError::NotUtf8("theme.css".to_string())));
}

#[test]
fn unreadable_header_fails() {
    let r = make_views(
        "./pages",
        &file("theme.css", ""),
        "Demo",
        &unreadable("header.html"),
        &file(HOME_FILE, ""),
        &file(NOT_FOUND_FILE, ""),
        &Some(vec![]),
    );
    assert_eq!(r, Err(BuildError::ReadFailed("header.html".to_string())));
}

#[test]
fn home_error_comes_before_theme_error() {
    let r = make_views(
        "./pages",
        &unreadable("theme.css"),
        "Demo",
        &file("header.html", ""),
        &unreadable(HOME_FILE),
        &file(NOT_FOUND_FILE, ""),
        &Some(vec![]),
    );
    assert_eq!(r, Err(BuildError::ReadFailed("home.html".to_string())));
}

#[test]
fn unlistable_directory_fails() {
    assert_eq!(compile_site(None), Err(BuildError::DirUnreadable));
}

#[test]
fn first_bad_content_file_is_reported() {
    let bad = SourceFile { path: "./pages/x.html".to_string(), is_dir: false, contents: Some(vec![0xc3]) };
    let r = compile_site(Some(vec![file("./pages/a.html", "A"), bad, unreadable("./pages/y.html")]));
    assert_eq!(r, Err(BuildError::NotUtf8("./pages/x.html".to_string())));
}

#[test]
fn unreadable_content_file_fails() {
    let r = compile_site(Some(vec![unreadable("./pages/y.html")]));
    assert_eq!(r, Err(BuildError::ReadFailed("./pages/y.html".to_string())));
}

#[test]
fn multibyte_text_is_decoded() {
    let f = SourceFile { path: "x".to_string(), is_dir: false, contents: Some(vec![0x63, 0x61, 0x66, 0xc3, 0xa9]) };
    assert_eq!(read_text(&f), Ok("caf\u{e9}".to_string()));
    let views = compile_site(Some(vec![file("./pages/caf\u{e9}.html", "\u{e9}t\u{e9}")])).unwrap();
    assert_eq!(views[2].web_path, "/caf\u{e9}");
    assert!(views[2].source.contains("caf\u{e9} on Demo"));
}

#[test]
fn web_path_inside_content_directory() {
    assert_eq!(web_path("./pages", "./pages/about.html"), "/about");
    assert_eq!(web_path("./pages/", "./pages/about.html"), "/about");
    assert_eq!(web_path("./pages", "./pages/a.b.html"), "/a.b");
    assert_eq!(web_path("./pages", "./pages/readme"), "/readme");
}

#[test]
fn web_path_outside_content_directory() {
    assert_eq!(web_path("./pages", "home.html"), "/home");
    assert_eq!(web_path("./pages", "404.html"), "/404");
    assert_eq!(web_path("./pages", "./pagesx/a.html"), "/./pagesx/a");
    assert_eq!(web_path("./pages", "site.d/readme"), "/site.d/readme");
}

#[test]
fn document_template_exact() {
    let doc = generate_view("<p>x</p>", "a{}", "t on s", "<nav/>");
    assert_eq!(
        doc,
        "\n    <style>\n\n    a{}\n\n    </style>\n\n    <html>\n\n    <head>\n\n    <title>t on s</title>\n\n    </head>\n\n    <body>\n\n    <header>\n\n    <nav/>\n\n    </header>\n\n    <p>x</p>\n\n    </body>\n\n    </html>\n    "
    );
}

#[test]
fn view_build_assembles_title() {
    let v = View::build("./pages/about.html", "./pages", "<p>About us</p>", "css", "Demo", "hdr");
    assert_eq!(v.web_path, "/about");
    assert_eq!(v.source, generate_view("<p>About us</p>", "css", "about on Demo", "hdr"));
}

#[test]
fn root_serves_home() {
    let pages = sample_pages();
    assert_eq!(dispatch("GET", "/", &pages), (STATUS_OK, "HOME".to_string()));
    assert_eq!(STATUS_OK, 200);
}

#[test]
fn other_methods_get_not_found() {
    let pages = sample_pages();
    assert_eq!(dispatch("POST", "/about", &pages), (STATUS_NOT_FOUND, "MISSING".to_string()));
    assert_eq!(dispatch("HEAD", "/", &pages), (STATUS_NOT_FOUND, "MISSING".to_string()));
    assert_eq!(dispatch("get", "/about", &pages), (404, "MISSING".to_string()));
}

#[test]
fn content_page_served_at_its_path() {
    let pages = sample_pages();
    assert_eq!(dispatch("GET", "/about", &pages), (200, "ABOUT".to_string()));
    assert_eq!(dispatch("GET", "/blog", &pages), (200, "BLOG".to_string()));
    assert_eq!(dispatch("GET", "/home", &pages), (200, "HOME".to_string()));
}

#[test]
fn unknown_path_gets_not_found() {
    let pages = sample_pages();
    assert_eq!(dispatch("GET", "/does-not-exist", &pages), (404, "MISSING".to_string()));
    assert_eq!(dispatch("GET", "/about/", &pages), (404, "MISSING".to_string()));
    assert_eq!(dispatch("GET", "/About", &pages), (404, "MISSING".to_string()));
}

#[test]
fn first_matching_page_wins() {
    let mut pages = sample_pages();
    pages.push(page("/about", "SECOND"));
    assert_eq!(route(&pages, "/about"), Some(2));
    assert_eq!(route(&pages, "/none"), None);
    assert_eq!(dispatch("GET", "/about", &pages), (200, "ABOUT".to_string()));
}

#[test]
fn compiled_site_dispatch() {
    let views = compile_site(Some(vec![file("./pages/about.html", "<p>About us</p>")])).unwrap();
    let (status, body) = dispatch("GET", "/about", &views);
    assert_eq!(status, 200);
    assert_eq!(body, views[2].source);
    let (status, body) = dispatch("GET", "/", &views);
    assert_eq!((status, body), (200, views[0].source.clone()));
}

#[test]
fn any_extension_is_stripped() {
    assert_eq!(web_path("./pages", "./pages/notes.txt"), "/notes");
    assert_eq!(web_path("./pages", "./pages/data.markdown"), "/data");
    let views = compile_site(Some(vec![file("./pages/notes.txt", "N")])).unwrap();
    assert_eq!(views[2].web_path, "/notes");
    assert!(views[2].source.contains("notes on Demo"));
}
