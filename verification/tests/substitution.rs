use bokuchi::substitution::resolve_placeholder;
use bokuchi::{VariableMap, VariableProcessor};

fn map_of(pairs: &[(&str, &str)]) -> VariableMap {
    let mut map = VariableMap::new();
    for (name, value) in pairs {
        map.insert(name.to_string(), value.to_string());
    }
    map
}

fn processor_with(pairs: &[(&str, &str)]) -> VariableProcessor {
    let mut processor = VariableProcessor::new();
    for (name, value) in pairs {
        processor.set_global_variable(name.to_string(), value.to_string());
    }
    processor
}

#[test]
fn test_process_variables() {
    let mut processor = VariableProcessor::new();
    processor.set_global_variable("global_var".to_string(), "global_value".to_string());

    let content = r#"# Test Document
<!-- @var local_var: local_value -->
Hello {{local_var}} and {{global_var}}!
<!-- @var another_var: another_value -->
This is {{another_var}}."#;

    let result = processor.process_variables(content);

    assert!(result.contains("Hello local_value and global_value!"));
    assert!(result.contains("This is another_value."));
    assert!(!result.contains("{{local_var}}"));
    assert!(!result.contains("{{global_var}}"));
    assert!(!result.contains("{{another_var}}"));
}

#[test]
fn test_process_variables_priority() {
    let mut processor = VariableProcessor::new();
    processor.set_global_variable("test_var".to_string(), "global_value".to_string());

    let content = r#"<!-- @var test_var: local_value -->
{{test_var}}"#;

    let result = processor.process_variables(content);

    // Local variable should take priority over global
    assert_eq!(result.trim(), "local_value");
}

#[test]
fn test_process_variables_undefined_variable() {
    let processor = VariableProcessor::new();
    let content = "Hello {{undefined_var}}!";

    let result = processor.process_variables(content);

    // Undefined variables should remain unchanged
    assert_eq!(result, "Hello {{undefined_var}}!");
}

#[test]
fn test_variable_processing_integration() {
    let mut processor = VariableProcessor::new();

    // Set global variables
    processor.set_global_variable("global_name".to_string(), "Global User".to_string());
    processor.set_global_variable("global_company".to_string(), "Global Corp".to_string());

    // Process markdown with both local and global variables
    let content = r#"# Welcome Document
<!-- @var local_name: Local User -->
<!-- @var local_department: Engineering -->
Hello {{local_name}} from {{local_department}}!
Your company is {{global_company}}.
<!-- @var local_role: Developer -->
You are a {{local_role}}."#;

    let result = processor.process_variables(content);

    // Check that local variables are processed
    assert!(result.contains("Hello Local User from Engineering!"));
    assert!(result.contains("You are a Developer."));

    // Check that global variables are processed
    assert!(result.contains("Your company is Global Corp."));

    // Check that variable definitions are removed
    assert!(!result.contains("<!-- @var"));
}

#[test]
fn expansion_is_exact() {
    let processor = processor_with(&[("global_var", "global_value")]);
    let content = "# Test Document\n<!-- @var local_var: local_value -->\nHello {{local_var}} and {{global_var}}!\n<!-- @var another_var: another_value -->\nThis is {{another_var}}.";
    assert_eq!(
        processor.process_variables(content),
        "# Test Document\nHello local_value and global_value!\nThis is another_value."
    );
}

#[test]
fn local_declaration_shadows_global() {
    let processor = processor_with(&[("x", "B")]);
    assert_eq!(processor.process_variables("<!-- @var x: A -->\n{{x}}"), "A");
    assert_eq!(processor.process_variables("{{x}}"), "B");
    assert_eq!(processor.get_global_variable("x"), Some("B".to_string()));
}

#[test]
fn unresolved_placeholder_passes_through() {
    let processor = processor_with(&[("other", "value")]);
    assert_eq!(processor.process_variables("Hi {{nope}}!"), "Hi {{nope}}!");
    assert_eq!(processor.process_variables("Hi {{ nope }}!"), "Hi {{ nope }}!");
}

#[test]
fn last_declaration_of_a_name_wins() {
    let processor = VariableProcessor::new();
    let content = "<!-- @var x: first -->\n{{x}}\n<!-- @var x: second -->";
    assert_eq!(processor.process_variables(content), "second");
}

#[test]
fn declaration_applies_to_the_whole_document() {
    let processor = VariableProcessor::new();
    assert_eq!(processor.process_variables("{{late}}\n<!-- @var late: here -->"), "here");
}

#[test]
fn placeholder_name_is_trimmed() {
    let processor = processor_with(&[("name", "World")]);
    assert_eq!(
        processor.process_variables("Hello {{ name }} and {{\tname\n}} and {{name }}!"),
        "Hello World and World and World!"
    );
}

#[test]
fn empty_and_blank_interiors() {
    let processor = processor_with(&[("name", "World")]);
    assert_eq!(processor.process_variables("{{}} and {{ }}"), "{{}} and {{ }}");

    let processor = processor_with(&[("", "nothing")]);
    assert_eq!(processor.process_variables("{{}} and {{ }}"), "{{}} and nothing");
}

#[test]
fn substituted_values_are_not_scanned_again() {
    let processor = processor_with(&[("a", "{{b}}"), ("b", "deep")]);
    assert_eq!(processor.process_variables("{{a}} {{b}}"), "{{b}} deep");
}

#[test]
fn adjacent_and_repeated_placeholders() {
    let processor = processor_with(&[("a", "1"), ("b", "2")]);
    assert_eq!(processor.process_variables("{{a}}{{b}}{{a}}{{c}}{{b}}"), "121{{c}}2");
}

#[test]
fn braces_that_are_no_placeholder_stay() {
    let processor = processor_with(&[("a", "1"), ("{a", "brace")]);
    assert_eq!(processor.process_variables("{a} {{a} {{a} } }}"), "{a} {{a} {{a} } }}");
    assert_eq!(processor.process_variables("{{a}}}"), "1}");
    assert_eq!(processor.process_variables("{{{a}}"), "brace");
    assert_eq!(processor.process_variables("{{a"), "{{a");
    assert_eq!(processor.process_variables("{{x{{a}}"), "{{x{{a}}");
}

#[test]
fn placeholder_may_span_lines() {
    let processor = processor_with(&[("a\nb", "joined"), ("c", "3")]);
    assert_eq!(processor.process_variables("{{a\nb}}\n{{\nc\n}}"), "joined\n3");
}

#[test]
fn text_without_placeholders_is_unchanged() {
    let processor = processor_with(&[("a", "1")]);
    assert_eq!(processor.process_variables("plain text, no braces"), "plain text, no braces");
    assert_eq!(processor.process_variables(""), "");
    assert_eq!(processor.process_variables("ünïcödé {{a}} ✓ {{é}}"), "ünïcödé 1 ✓ {{é}}");
}

#[test]
fn expansion_leaves_the_store_as_it_is() {
    let processor = processor_with(&[("g", "1")]);
    let _ = processor.process_variables("<!-- @var local: 2 -->\n{{g}}{{local}}");
    assert_eq!(processor.get_all_global_variables().len(), 1);
    assert_eq!(processor.get_global_variable("local"), None);
}

#[test]
fn resolve_placeholder_by_precedence() {
    let locals = map_of(&[("x", "local"), ("only_local", "l")]);
    let globals = map_of(&[("x", "global"), ("only_global", "g")]);

    assert_eq!(resolve_placeholder("{{x}}", "x", &locals, &globals), "local");
    assert_eq!(resolve_placeholder("{{ x }}", " x ", &locals, &globals), "local");
    assert_eq!(resolve_placeholder("{{only_local}}", "only_local", &locals, &globals), "l");
    assert_eq!(resolve_placeholder("{{only_global}}", "only_global", &locals, &globals), "g");
    assert_eq!(resolve_placeholder("{{none}}", "none", &locals, &globals), "{{none}}");
    assert_eq!(resolve_placeholder("{{ none }}", " none ", &locals, &globals), "{{ none }}");
    assert_eq!(resolve_placeholder("{{X}}", "X", &locals, &globals), "{{X}}");
}
