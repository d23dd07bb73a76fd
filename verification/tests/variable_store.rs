use bokuchi::{Variable, VariableMap, VariableProcessor};

#[test]
fn test_variable_processor_new() {
    let processor = VariableProcessor::new();
    assert!(processor.get_all_global_variables().is_empty());
}

#[test]
fn test_set_and_get_global_variable() {
    let mut processor = VariableProcessor::new();
    processor.set_global_variable("test_var".to_string(), "test_value".to_string());
    assert_eq!(processor.get_global_variable("test_var"), Some("test_value".to_string()));
    assert_eq!(processor.get_global_variable("nonexistent"), None);
}

#[test]
fn test_get_all_global_variables() {
    let mut processor = VariableProcessor::new();
    processor.set_global_variable("var1".to_string(), "value1".to_string());
    processor.set_global_variable("var2".to_string(), "value2".to_string());

    let all_vars = processor.get_all_global_variables();
    assert_eq!(all_vars.len(), 2);
    assert_eq!(all_vars.get("var1"), Some(&"value1".to_string()));
    assert_eq!(all_vars.get("var2"), Some(&"value2".to_string()));
}

#[test]
fn set_overwrites_an_existing_name() {
    let mut processor = VariableProcessor::new();
    processor.set_global_variable("name".to_string(), "first".to_string());
    processor.set_global_variable("other".to_string(), "kept".to_string());
    processor.set_global_variable("name".to_string(), "second".to_string());

    assert_eq!(processor.get_global_variable("name"), Some("second".to_string()));
    assert_eq!(processor.get_global_variable("other"), Some("kept".to_string()));
    assert_eq!(processor.get_all_global_variables().len(), 2);
}

#[test]
fn names_are_compared_exactly() {
    let mut processor = VariableProcessor::new();
    processor.set_global_variable("Name".to_string(), "upper".to_string());
    processor.set_global_variable("".to_string(), "empty".to_string());

    assert_eq!(processor.get_global_variable("name"), None);
    assert_eq!(processor.get_global_variable("Name "), None);
    assert_eq!(processor.get_global_variable("Name"), Some("upper".to_string()));
    assert_eq!(processor.get_global_variable(""), Some("empty".to_string()));
}

#[test]
fn snapshot_is_independent_of_the_store() {
    let mut processor = VariableProcessor::new();
    processor.set_global_variable("a".to_string(), "1".to_string());

    let mut snapshot = processor.get_all_global_variables();
    snapshot.insert("a".to_string(), "changed".to_string());
    snapshot.insert("b".to_string(), "2".to_string());
    assert_eq!(processor.get_global_variable("a"), Some("1".to_string()));
    assert_eq!(processor.get_global_variable("b"), None);

    let earlier = processor.get_all_global_variables();
    processor.set_global_variable("a".to_string(), "later".to_string());
    assert_eq!(earlier.get("a"), Some(&"1".to_string()));
    assert_eq!(earlier.len(), 1);
}

#[test]
fn variable_map_insert_get_len() {
    let mut map = VariableMap::new();
    assert!(map.is_empty());
    assert_eq!(map.len(), 0);
    assert_eq!(map.get("x"), None);
    assert!(!map.contains_key("x"));

    map.insert("x".to_string(), "1".to_string());
    map.insert("y".to_string(), "2".to_string());
    map.insert("x".to_string(), "3".to_string());

    assert!(!map.is_empty());
    assert_eq!(map.len(), 2);
    assert!(map.contains_key("x"));
    assert_eq!(map.get("x"), Some(&"3".to_string()));
    assert_eq!(map.get("y"), Some(&"2".to_string()));
    assert_eq!(map.get("z"), None);
}

#[test]
fn variable_map_insert_each_last_one_wins() {
    let mut map = VariableMap::new();
    map.insert("kept".to_string(), "k".to_string());
    map.insert("a".to_string(), "old".to_string());
    let vars = vec![
        Variable { name: "a".to_string(), value: "1".to_string() },
        Variable { name: "b".to_string(), value: "2".to_string() },
        Variable { name: "a".to_string(), value: "3".to_string() },
    ];
    map.insert_each(&vars);

    assert_eq!(map.len(), 3);
    assert_eq!(map.get("a"), Some(&"3".to_string()));
    assert_eq!(map.get("b"), Some(&"2".to_string()));
    assert_eq!(map.get("kept"), Some(&"k".to_string()));
}

#[test]
fn variable_map_to_vec_lists_each_name_once() {
    let mut map = VariableMap::new();
    map.insert("a".to_string(), "1".to_string());
    map.insert("b".to_string(), "2".to_string());
    map.insert("a".to_string(), "3".to_string());

    let mut pairs: Vec<(String, String)> =
        map.to_vec().into_iter().map(|v| (v.name, v.value)).collect();
    pairs.sort();
    assert_eq!(
        pairs,
        vec![("a".to_string(), "3".to_string()), ("b".to_string(), "2".to_string())]
    );

    let copy = map.clone();
    assert_eq!(copy.len(), 2);
    assert_eq!(copy.get("a"), Some(&"3".to_string()));
}
