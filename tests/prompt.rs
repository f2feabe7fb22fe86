use daily_ai::prompt::PromptTemplate;

#[test]
fn test_render() {
    let t = PromptTemplate::new("Hello {{name}}, welcome to {{place}}!");
    let vars = vec![("name", "Alice"), ("place", "Wonderland")];
    assert_eq!(t.render(&vars), "Hello Alice, welcome to Wonderland!");
}

#[test]
fn render_replaces_every_occurrence() {
    let t = PromptTemplate::new("{{x}}-{{x}}-{x}");
    let vars = vec![("x", "7")];
    assert_eq!(t.render(&vars), "7-7-{x}");
}

#[test]
fn render_leaves_unknown_placeholders() {
    let t = PromptTemplate::new("a {{missing}} b");
    let vars: Vec<(&str, &str)> = vec![("other", "z")];
    assert_eq!(t.render(&vars), "a {{missing}} b");
}
