use writium::template::TemplateVariables;

fn vars(pairs: &[(&str, &str)]) -> TemplateVariables {
    let mut v = TemplateVariables::new();
    for (k, val) in pairs {
        v.insert(k.to_string(), val.to_string());
    }
    v
}

#[test]
fn variables_insert_get_remove() {
    let mut v = TemplateVariables::new();
    assert!(!v.contains_key("author"));
    assert_eq!(v.insert("author".to_string(), "Akari".to_string()), None);
    assert!(v.contains_key("author"));
    assert_eq!(v.get("author"), Some(&"Akari".to_string()));
    assert_eq!(v.insert("author".to_string(), "Someone".to_string()), Some("Akari".to_string()));
    assert_eq!(v.get("author"), Some(&"Someone".to_string()));
    assert_eq!(v.get("title"), None);
    assert_eq!(v.remove("author"), Some("Someone".to_string()));
    assert_eq!(v.remove("author"), None);
    assert!(!v.contains_key("author"));
}

#[test]
fn fill_replaces_variables() {
    let v = vars(&[("title", "Hello"), ("author", "Akari")]);
    let frags = TemplateVariables::new();
    assert_eq!(
        v.fill_template("<h1><?var title?></h1> by <?var  author ?>.", &frags),
        Some("<h1>Hello</h1> by Akari.".to_string())
    );
}

#[test]
fn fill_missing_variable_is_empty() {
    let v = TemplateVariables::new();
    let frags = TemplateVariables::new();
    assert_eq!(v.fill_template("[<?var nothing?>]", &frags), Some("[]".to_string()));
}

#[test]
fn fill_inserts_fragments() {
    let v = vars(&[("var", "not this")]);
    let frags = vars(&[("head.html", "<head/>")]);
    assert_eq!(
        v.fill_template("<?frag head.html?><body><?frag\tmissing.html?></body>", &frags),
        Some("<head/><body></body>".to_string())
    );
}

#[test]
fn fill_drops_unknown_instructions() {
    let v = vars(&[("x", "X")]);
    let frags = TemplateVariables::new();
    assert_eq!(v.fill_template("a<?php echo 1?>b<??>c<?var x?>", &frags), Some("abcX".to_string()));
    assert_eq!(v.fill_template("no instructions", &frags), Some("no instructions".to_string()));
    assert_eq!(v.fill_template("", &frags), Some(String::new()));
}

#[test]
fn fill_rejects_malformed_templates() {
    let v = vars(&[("x", "X")]);
    let frags = TemplateVariables::new();
    assert_eq!(v.fill_template("a<?var x", &frags), None);
    assert_eq!(v.fill_template("<?>", &frags), None);
    assert_eq!(v.fill_template("<?var?>", &frags), None);
    assert_eq!(v.fill_template("<?frag?>", &frags), None);
    assert_eq!(v.fill_template("ok <?var x?> then <?", &frags), None);
}

#[test]
fn fill_handles_non_ascii_text() {
    let v = vars(&[("名", "値")]);
    let frags = TemplateVariables::new();
    assert_eq!(v.fill_template("«<?var 名\u{3000}?>»", &frags), Some("«値»".to_string()));
}
