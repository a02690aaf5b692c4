use mac_dock::css_imports::{
    discover_import_candidates, parse_css_imports, resolve_import_path, strip_css_comments,
    take_import_path,
};

#[test]
fn strip_comments_none() {
    assert_eq!(
        strip_css_comments("window { color: red; }"),
        "window { color: red; }"
    );
}

#[test]
fn strip_single_comment() {
    assert_eq!(strip_css_comments("a /* b */ c"), "a  c");
}

#[test]
fn strip_multiple_comments() {
    assert_eq!(strip_css_comments("/* one */ middle /* two */"), " middle ");
}

#[test]
fn strip_comment_containing_import_directive() {
    assert!(!strip_css_comments("/* @import \"fake.css\"; */ real").contains("@import"));
}

#[test]
fn strip_unterminated_comment_consumes_rest() {
    assert_eq!(strip_css_comments("before /* oops"), "before ");
}

#[test]
fn strip_empty_input() {
    assert_eq!(strip_css_comments(""), "");
}

#[test]
fn strip_adjacent_comments() {
    assert_eq!(strip_css_comments("/*a*//*b*/c"), "c");
}

#[test]
fn take_double_quoted_path() {
    let (p, rest) = take_import_path("\"theme.css\"; window { }").unwrap();
    assert_eq!(p, "theme.css");
    assert_eq!(rest, "; window { }");
}

#[test]
fn take_single_quoted_path() {
    let (p, rest) = take_import_path("'theme.css'").unwrap();
    assert_eq!(p, "theme.css");
    assert_eq!(rest, "");
}

#[test]
fn take_url_double_quoted() {
    let (p, rest) = take_import_path("url(\"theme.css\") screen;").unwrap();
    assert_eq!(p, "theme.css");
    assert!(rest.contains("screen"));
}

#[test]
fn take_url_single_quoted() {
    let (p, _) = take_import_path("url('theme.css')").unwrap();
    assert_eq!(p, "theme.css");
}

#[test]
fn take_url_unquoted() {
    let (p, _) = take_import_path("url(theme.css)").unwrap();
    assert_eq!(p, "theme.css");
}

#[test]
fn take_url_with_inner_whitespace() {
    let (p, _) = take_import_path("url(  theme.css  )").unwrap();
    assert_eq!(p, "theme.css");
}

#[test]
fn take_unterminated_quote_returns_none() {
    assert!(take_import_path("\"unterminated").is_none());
}

#[test]
fn take_non_import_returns_none() {
    assert!(take_import_path("window { color: red; }").is_none());
}

#[test]
fn take_empty_returns_none() {
    assert!(take_import_path("").is_none());
}

#[test]
fn parse_no_imports() {
    assert!(parse_css_imports("window { color: red; }").is_empty());
}

#[test]
fn parse_single_double_quoted() {
    assert_eq!(
        parse_css_imports("@import \"theme.css\";\nwindow { }"),
        vec!["theme.css"]
    );
}

#[test]
fn parse_single_single_quoted() {
    assert_eq!(parse_css_imports("@import 'theme.css';"), vec!["theme.css"]);
}

#[test]
fn parse_url_forms() {
    assert_eq!(
        parse_css_imports("@import url(\"a.css\"); @import url('b.css'); @import url(c.css);"),
        vec!["a.css", "b.css", "c.css"]
    );
}

#[test]
fn parse_multiple_mixed_imports() {
    let css = r#"
            @import "one.css";
            @import 'two.css';
            @import url("three.css");
            window { color: red; }
        "#;
    assert_eq!(
        parse_css_imports(css),
        vec!["one.css", "two.css", "three.css"]
    );
}

#[test]
fn parse_ignores_commented_imports() {
    let css = r#"
            /* @import "fake.css"; */
            @import "real.css";
        "#;
    assert_eq!(parse_css_imports(css), vec!["real.css"]);
}

#[test]
fn parse_import_with_media_query_suffix() {
    let css = r#"@import "print.css" print;"#;
    assert_eq!(parse_css_imports(css), vec!["print.css"]);
}

#[test]
fn parse_malformed_continues_past() {
    let css = r#"
            @import "unterminated
            @import "good.css";
        "#;
    let imports = parse_css_imports(css);
    assert!(imports.contains(&"good.css".to_string()));
}

#[test]
fn parse_path_with_spaces_in_quotes() {
    assert_eq!(
        parse_css_imports("@import \"my themes/base16.css\";"),
        vec!["my themes/base16.css"]
    );
}

#[test]
fn parse_empty_string_paths_skipped() {
    assert!(parse_css_imports("@import \"\"; @import ' ';").is_empty());
}

#[test]
fn parse_real_world_tinty_example() {
    let css = r#"
            /* Color scheme */
            @import "/home/blueingreen68/.local/share/tinted-theming/tinty/base16-nwg-dock-themes-file.css";

            window {
              border-width: 3px;
              border-style: solid;
            }
        "#;
    assert_eq!(
        parse_css_imports(css),
        vec![
            "/home/blueingreen68/.local/share/tinted-theming/tinty/base16-nwg-dock-themes-file.css"
        ]
    );
}

#[test]
fn resolve_absolute_path_unchanged() {
    let base = "/home/user/.config/nwg-dock-hyprland";
    assert_eq!(
        resolve_import_path("/abs/path/theme.css", base).unwrap(),
        "/abs/path/theme.css"
    );
}

#[test]
fn resolve_relative_path_against_base() {
    let base = "/home/user/.config/nwg-dock-hyprland";
    assert_eq!(
        resolve_import_path("theme.css", base).unwrap(),
        "/home/user/.config/nwg-dock-hyprland/theme.css"
    );
}

#[test]
fn resolve_nested_relative_path() {
    let base = "/home/user/.config/nwg-dock-hyprland";
    assert_eq!(
        resolve_import_path("themes/dark.css", base).unwrap(),
        "/home/user/.config/nwg-dock-hyprland/themes/dark.css"
    );
}

#[test]
fn resolve_http_is_none() {
    assert!(resolve_import_path("http://example.com/style.css", "/tmp").is_none());
}

#[test]
fn resolve_https_is_none() {
    assert!(resolve_import_path("https://example.com/style.css", "/tmp").is_none());
}

#[test]
fn resolve_data_url_is_none() {
    assert!(resolve_import_path("data:text/css,body{}", "/tmp").is_none());
}

#[test]
fn resolve_file_url_is_none() {
    assert!(resolve_import_path("file:///etc/passwd", "/tmp").is_none());
}

#[test]
fn resolve_empty_is_none() {
    assert!(resolve_import_path("", "/tmp").is_none());
}

#[test]
fn resolve_whitespace_only_is_none() {
    assert!(resolve_import_path("   \t\n", "/tmp").is_none());
}

#[test]
fn discover_candidates_resolves_and_skips_urls() {
    let css = "@import \"a.css\"; @import url(http://x/y.css); @import '/abs/b.css';";
    assert_eq!(
        discover_import_candidates(css, "/base"),
        vec!["/base/a.css".to_string(), "/abs/b.css".to_string()]
    );
}
