use google_dork_builder::catalog::{
    all_templates, filter_dorks_by_category, str_lt, unique_categories,
};
use google_dork_builder::fields::{eq_ignore_ascii_case, DorkTemplate};

fn template(name: &str, category: &str) -> DorkTemplate {
    DorkTemplate {
        name: name.to_string(),
        category: category.to_string(),
        site: String::new(),
        inurl: String::new(),
        intitle: String::new(),
        filetype: String::new(),
        intext: String::new(),
    }
}

#[test]
fn unique_categories_sorted_without_duplicates() {
    let dorks = vec![
        template("a", "Files"),
        template("b", "Admin"),
        template("c", "Files"),
        template("d", "Documents"),
        template("e", "Admin"),
    ];
    let cats = unique_categories(&dorks);
    assert_eq!(cats, vec!["Admin", "Documents", "Files"]);
}

#[test]
fn unique_categories_of_fixed_catalog() {
    let cats = unique_categories(&all_templates());
    assert_eq!(cats, vec!["Admin", "Documents", "Files"]);
}

#[test]
fn unique_categories_is_case_sensitive_in_its_listing() {
    let dorks = vec![template("a", "admin"), template("b", "Admin")];
    let cats = unique_categories(&dorks);
    assert_eq!(cats, vec!["Admin", "admin"]);
}

#[test]
fn filter_is_case_insensitive() {
    let dorks = all_templates();
    let upper = filter_dorks_by_category(&dorks, "Admin");
    let lower = filter_dorks_by_category(&dorks, "admin");
    let upper_names: Vec<&str> = upper.iter().map(|t| t.name.as_str()).collect();
    let lower_names: Vec<&str> = lower.iter().map(|t| t.name.as_str()).collect();
    assert_eq!(upper_names, lower_names);
    assert_eq!(upper_names, vec!["Admin Login", "Login Portals"]);
}

#[test]
fn filter_preserves_catalog_order() {
    let dorks = all_templates();
    let files = filter_dorks_by_category(&dorks, "FILES");
    let names: Vec<&str> = files.iter().map(|t| t.name.as_str()).collect();
    assert_eq!(names, vec!["Exposed Config", "Index Of Backups"]);
}

#[test]
fn filter_unknown_category_is_empty() {
    let dorks = all_templates();
    assert!(filter_dorks_by_category(&dorks, "Nothing").is_empty());
}

#[test]
fn matches_category_folds_ascii_case() {
    let t = template("x", "Files");
    assert!(t.matches_category("files"));
    assert!(t.matches_category("FILES"));
    assert!(!t.matches_category("file"));
    assert!(eq_ignore_ascii_case("AdMiN", "admin"));
    assert!(!eq_ignore_ascii_case("admin", "admins"));
}

#[test]
fn str_lt_is_lexicographic() {
    assert!(str_lt("Admin", "Files"));
    assert!(str_lt("", "a"));
    assert!(!str_lt("a", ""));
    assert!(!str_lt("abc", "abc"));
    assert!(str_lt("ab", "abc"));
}

#[test]
fn fixed_catalog_first_entry_is_exposed_config() {
    let dorks = all_templates();
    let first = &dorks[0];
    assert_eq!(first.name, "Exposed Config");
    assert_eq!(first.category, "Files");
    assert_eq!(first.site, "");
    assert_eq!(first.inurl, "");
    assert_eq!(first.intitle, "");
    assert_eq!(first.filetype, "env");
    assert_eq!(first.intext, "");
}
