use bokuchi::{get_expanded_markdown, process_markdown, VariableMap, VariableProcessor};

#[test]
fn test_process_markdown_command() {
    let mut processor = VariableProcessor::new();
    let content = "Hello {{name}}!";
    let mut global_variables = VariableMap::new();
    global_variables.insert("name".to_string(), "World".to_string());

    let result = process_markdown(&mut processor, content.to_string(), global_variables).unwrap();
    assert_eq!(result, "Hello World!");
}

#[test]
fn test_get_expanded_markdown_command() {
    let mut processor = VariableProcessor::new();
    let content = "Hello {{name}}!";
    let mut global_variables = VariableMap::new();
    global_variables.insert("name".to_string(), "World".to_string());

    let result =
        get_expanded_markdown(&mut processor, content.to_string(), global_variables).unwrap();
    assert_eq!(result, "Hello World!");
}

#[test]
fn overrides_stay_in_the_store() {
    let mut processor = VariableProcessor::new();
    processor.set_global_variable("name".to_string(), "before".to_string());
    processor.set_global_variable("kept".to_string(), "k".to_string());
    let mut overrides = VariableMap::new();
    overrides.insert("name".to_string(), "World".to_string());
    overrides.insert("new".to_string(), "n".to_string());

    let result = process_markdown(
        &mut processor,
        "{{name}} {{kept}} {{new}}".to_string(),
        overrides,
    );
    assert_eq!(result, Ok("World k n".to_string()));

    assert_eq!(processor.get_all_global_variables().len(), 3);
    assert_eq!(processor.get_global_variable("name"), Some("World".to_string()));
    assert_eq!(processor.get_global_variable("kept"), Some("k".to_string()));
    assert_eq!(processor.get_global_variable("new"), Some("n".to_string()));

    let again = get_expanded_markdown(&mut processor, "{{name}}".to_string(), VariableMap::new());
    assert_eq!(again, Ok("World".to_string()));
}

#[test]
fn declaration_shadows_an_override() {
    let mut processor = VariableProcessor::new();
    let mut overrides = VariableMap::new();
    overrides.insert("x".to_string(), "override".to_string());
    let result = process_markdown(
        &mut processor,
        "<!-- @var x: declared -->\n{{x}}".to_string(),
        overrides,
    );
    assert_eq!(result, Ok("declared".to_string()));
    assert_eq!(processor.get_global_variable("x"), Some("override".to_string()));
}
