use google_dork_builder::session::DorkApp;
use google_dork_builder::web::search_url;

#[test]
fn end_to_end_first_template_generates_and_records() {
    let mut app = DorkApp::default();
    assert_eq!(app.history.entries.len(), 0);
    assert_eq!(app.templates[0].name, "Exposed Config");
    assert_eq!(app.templates[0].filetype, "env");
    let changed = app.select_template(0);
    assert!(changed);
    assert_eq!(app.query, "filetype:env");
    assert_eq!(app.history.entries, vec!["filetype:env"]);
}

#[test]
fn generate_query_is_idempotent_on_history() {
    let mut app = DorkApp::default();
    app.data.site = "example.com".to_string();
    assert!(app.generate_query());
    assert!(!app.generate_query());
    assert_eq!(app.history.entries, vec!["site:example.com"]);
}

#[test]
fn generate_query_with_empty_fields_records_nothing() {
    let mut app = DorkApp::default();
    assert!(!app.generate_query());
    assert_eq!(app.query, "");
    assert_eq!(app.history.entries.len(), 0);
}

#[test]
fn select_category_resets_template_selection() {
    let mut app = DorkApp::default();
    app.selected_template = 3;
    app.select_category("Admin".to_string());
    assert_eq!(app.selected_category, "Admin");
    assert_eq!(app.selected_template, 0);
}

#[test]
fn select_template_uses_filtered_list() {
    let mut app = DorkApp::default();
    app.select_category("Admin".to_string());
    let changed = app.select_template(0);
    assert!(changed);
    assert_eq!(app.data.inurl, "admin");
    assert_eq!(app.data.intitle, "login");
    assert_eq!(app.query, "inurl:\"admin\" intitle:\"login\"");
}

#[test]
fn select_template_out_of_range_is_noop() {
    let mut app = DorkApp::default();
    let changed = app.select_template(100);
    assert!(!changed);
    assert_eq!(app.history.entries.len(), 0);
    assert_eq!(app.query, "");
}

#[test]
fn apply_template_leaves_operator_untouched() {
    let mut app = DorkApp::default();
    app.data.operator = "OR".to_string();
    app.apply_template(0);
    assert_eq!(app.data.operator, "OR");
    assert_eq!(app.data.filetype, "env");
    assert_eq!(app.data.site, "");
}

#[test]
fn select_history_reapplies_entry_without_growth() {
    let mut app = DorkApp::default();
    app.data.site = "example.com".to_string();
    assert!(app.generate_query());
    app.data.site = "other.org".to_string();
    let changed = app.select_history(0);
    assert!(!changed);
    assert_eq!(app.data.site, "example.com");
    assert_eq!(app.query, "site:example.com");
    assert_eq!(app.history.entries, vec!["site:example.com"]);
}

#[test]
fn select_history_out_of_range_is_noop() {
    let mut app = DorkApp::default();
    let changed = app.select_history(5);
    assert!(!changed);
    assert_eq!(app.query, "");
}

#[test]
fn apply_query_string_rebuilds_fields() {
    let mut app = DorkApp::default();
    app.apply_query_string("site:example.com filetype:pdf stray");
    assert_eq!(app.data.site, "example.com");
    assert_eq!(app.data.filetype, "pdf");
    assert_eq!(app.data.intext, "stray");
}

#[test]
fn search_url_percent_encodes_the_query() {
    assert_eq!(
        search_url("site:example.com OR x"),
        "https://www.google.com/search?q=site%3Aexample.com%20OR%20x"
    );
}

#[test]
fn search_url_of_empty_query_is_the_bare_endpoint() {
    assert_eq!(search_url(""), "https://www.google.com/search?q=");
}
