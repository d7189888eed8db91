use mdterm::text::{has_md_extension, is_hidden, is_temp_file_name, relative_path, same_text, text_less, chars_of};

#[test]
fn md_extension_is_case_insensitive() {
    assert!(has_md_extension("test.md"));
    assert!(has_md_extension("README.MD"));
    assert!(has_md_extension("notes.Md"));
    assert!(has_md_extension("a.b.md"));
    assert!(has_md_extension(".hidden.md"));
}

#[test]
fn md_extension_rejects_other_names() {
    assert!(!has_md_extension(".md"));
    assert!(!has_md_extension("md"));
    assert!(!has_md_extension("test.md~"));
    assert!(!has_md_extension("test.markdown"));
    assert!(!has_md_extension("test.txt"));
    assert!(!has_md_extension(".."));
    assert!(!has_md_extension(""));
    assert!(!has_md_extension("test.md.swp"));
}

#[test]
fn hidden_and_temp_names() {
    assert!(is_hidden(".gitignore"));
    assert!(!is_hidden("a.md"));
    assert!(!is_hidden(""));
    assert!(is_temp_file_name("test.md~"));
    assert!(is_temp_file_name(".test.md.swp"));
    assert!(is_temp_file_name("a.swpx.md"));
    assert!(!is_temp_file_name("test.md"));
    assert!(!is_temp_file_name(".sw"));
}

#[test]
fn name_order_is_code_point_order() {
    let a = chars_of("Zebra");
    let b = chars_of("apple");
    assert!(text_less(&a, &b));
    assert!(!text_less(&b, &a));
    assert!(text_less(&chars_of("ab"), &chars_of("abc")));
    assert!(!text_less(&chars_of("abc"), &chars_of("abc")));
    assert!(same_text("é", "é"));
    assert!(!same_text("a", "ab"));
}

#[test]
fn relative_paths_under_a_base() {
    assert_eq!(relative_path("/srv/docs", "/srv/docs/guides/a.md"), Some("guides/a.md".to_string()));
    assert_eq!(relative_path("/srv/docs/", "/srv/docs/a.md"), Some("a.md".to_string()));
    assert_eq!(relative_path("/srv/docs", "/srv/docs"), Some(String::new()));
    assert_eq!(relative_path("/srv/docs", "/srv/docsx/a.md"), None);
    assert_eq!(relative_path("/srv/docs", "/other/a.md"), None);
    assert_eq!(relative_path("/", "/a.md"), Some("a.md".to_string()));
}
