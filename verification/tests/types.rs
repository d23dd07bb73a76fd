use bokuchi::{FileHashInfo, OpenFileEvent, Variable, VariableSet};

#[test]
fn test_variable_creation() {
    let var = Variable {
        name: "test".to_string(),
        value: "value".to_string(),
    };
    assert_eq!(var.name, "test");
    assert_eq!(var.value, "value");
}

#[test]
fn test_variable_set_creation() {
    let variables = vec![
        Variable {
            name: "var1".to_string(),
            value: "value1".to_string(),
        },
        Variable {
            name: "var2".to_string(),
            value: "value2".to_string(),
        },
    ];
    let var_set = VariableSet { variables };
    assert_eq!(var_set.variables.len(), 2);
}

#[test]
fn test_file_hash_info_creation() {
    let hash_info = FileHashInfo {
        hash: "test_hash".to_string(),
        modified_time: 1234567890,
        file_size: 1024,
    };
    assert_eq!(hash_info.hash, "test_hash");
    assert_eq!(hash_info.modified_time, 1234567890);
    assert_eq!(hash_info.file_size, 1024);
}

#[test]
fn clones_keep_every_field() {
    let var = Variable { name: "n".to_string(), value: "v".to_string() };
    let copy = var.clone();
    assert_eq!(copy.name, "n");
    assert_eq!(copy.value, "v");

    let info = FileHashInfo { hash: "h".to_string(), modified_time: 7, file_size: 9 };
    let copy = info.clone();
    assert_eq!(copy.hash, "h");
    assert_eq!(copy.modified_time, 7);
    assert_eq!(copy.file_size, 9);

    let event = OpenFileEvent { file_path: "/tmp/note.md".to_string() };
    assert_eq!(event.clone().file_path, "/tmp/note.md");
}
