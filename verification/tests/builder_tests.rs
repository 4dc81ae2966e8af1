use google_dork_builder::builder::{build, parse_into, tokenize, trimmed};
use google_dork_builder::fields::DorkData;

fn data() -> DorkData {
    DorkData::empty()
}

#[test]
fn build_all_empty_gives_empty_string() {
    let d = data();
    assert_eq!(build(&d), "");
}

#[test]
fn build_all_empty_with_operator_gives_empty_string() {
    let mut d = data();
    d.operator = "OR".to_string();
    assert_eq!(build(&d), "");
}

#[test]
fn build_with_or_operator() {
    let mut d = data();
    d.site = "example.com".to_string();
    d.filetype = "pdf".to_string();
    d.operator = "OR".to_string();
    assert_eq!(build(&d), "site:example.com OR filetype:pdf");
}

#[test]
fn build_quoted_fields_space_joined() {
    let mut d = data();
    d.inurl = "admin".to_string();
    d.intitle = "login".to_string();
    assert_eq!(build(&d), "inurl:\"admin\" intitle:\"login\"");
}

#[test]
fn build_all_fields_fixed_order() {
    let mut d = data();
    d.site = "a".to_string();
    d.inurl = "b".to_string();
    d.intitle = "c".to_string();
    d.filetype = "d".to_string();
    d.intext = "e".to_string();
    assert_eq!(build(&d), "site:a inurl:\"b\" intitle:\"c\" filetype:d intext:\"e\"");
}

#[test]
fn build_trims_operator() {
    let mut d = data();
    d.site = "a".to_string();
    d.filetype = "b".to_string();
    d.operator = "  AND \t".to_string();
    assert_eq!(build(&d), "site:a AND filetype:b");
}

#[test]
fn build_whitespace_only_operator_is_single_space() {
    let mut d = data();
    d.site = "a".to_string();
    d.filetype = "b".to_string();
    d.operator = "   ".to_string();
    assert_eq!(build(&d), "site:a filetype:b");
}

#[test]
fn trimmed_strips_both_ends() {
    assert_eq!(trimmed("  x y\t"), "x y");
    assert_eq!(trimmed(""), "");
    assert_eq!(trimmed(" \t "), "");
    assert_eq!(trimmed("ok"), "ok");
}

#[test]
fn tokenize_splits_on_whitespace_runs() {
    assert_eq!(tokenize("a  b\tc"), vec!["a", "b", "c"]);
    assert_eq!(tokenize("  "), Vec::<String>::new());
    assert_eq!(tokenize("one"), vec!["one"]);
}

#[test]
fn parse_fills_prefixed_fields() {
    let mut d = data();
    parse_into(&mut d, "site:example.com inurl:admin filetype:env intitle:login loose words");
    assert_eq!(d.site, "example.com");
    assert_eq!(d.inurl, "admin");
    assert_eq!(d.filetype, "env");
    assert_eq!(d.intitle, "login");
    assert_eq!(d.intext, "loose words");
}

#[test]
fn parse_last_prefixed_token_wins() {
    let mut d = data();
    parse_into(&mut d, "site:a site:b");
    assert_eq!(d.site, "b");
}

#[test]
fn parse_leaves_operator_and_accumulates_intext() {
    let mut d = data();
    d.operator = "OR".to_string();
    d.intext = "kept".to_string();
    parse_into(&mut d, "extra");
    assert_eq!(d.operator, "OR");
    assert_eq!(d.intext, "kept extra");
}

#[test]
fn single_token_values_round_trip() {
    let mut d = data();
    d.site = "example.com".to_string();
    d.inurl = "admin".to_string();
    let q = build(&d);
    let mut back = data();
    parse_into(&mut back, &q);
    assert_eq!(back.site, "example.com");
    // Quoted values keep their quotes token-wise; the single-token inurl
    // value comes back as its quoted form's remainder.
    assert_eq!(back.inurl, "\"admin\"");
}

#[test]
fn multi_word_values_do_not_round_trip() {
    let mut d = data();
    d.intext = "two words".to_string();
    let q = build(&d);
    assert_eq!(q, "intext:\"two words\"");
    let mut back = data();
    parse_into(&mut back, &q);
    // No `intext:` prefix is recognised when parsing, so the fragments land
    // in intext verbatim, quotes and prefix included.
    assert_eq!(back.intext, "intext:\"two words\"");
    assert_ne!(back.intext, d.intext);
}
