use bokuchi::declarations::parse_declarations;
use bokuchi::{Variable, VariableProcessor};

fn pairs(variables: &[Variable]) -> Vec<(&str, &str)> {
    variables.iter().map(|v| (v.name.as_str(), v.value.as_str())).collect()
}

#[test]
fn test_parse_variables_from_markdown() {
    let processor = VariableProcessor::new();
    let content = r#"# Test Document
<!-- @var name: John Doe -->
<!-- @var email: john@example.com -->
Some content here
<!-- @var age: 30 -->
More content"#;

    let (variables, processed_content) = processor.parse_variables_from_markdown(content);

    assert_eq!(variables.len(), 3);
    assert_eq!(variables[0].name, "name");
    assert_eq!(variables[0].value, "John Doe");
    assert_eq!(variables[1].name, "email");
    assert_eq!(variables[1].value, "john@example.com");
    assert_eq!(variables[2].name, "age");
    assert_eq!(variables[2].value, "30");

    assert!(!processed_content.contains("<!-- @var"));
    assert!(processed_content.contains("Some content here"));
    assert!(processed_content.contains("More content"));
}

#[test]
fn test_parse_variables_from_markdown_no_variables() {
    let processor = VariableProcessor::new();
    let content = r#"# Test Document
Some content here
More content"#;

    let (variables, processed_content) = processor.parse_variables_from_markdown(content);

    assert_eq!(variables.len(), 0);
    assert_eq!(processed_content, content);
}

#[test]
fn three_declarations_between_two_lines_of_text() {
    let content = "<!-- @var name: John Doe -->\n<!-- @var email: john@example.com -->\nSome content\n<!-- @var age: 30 -->\nMore content";
    let (variables, remainder) = parse_declarations(content);
    assert_eq!(
        pairs(&variables),
        vec![("name", "John Doe"), ("email", "john@example.com"), ("age", "30")]
    );
    assert_eq!(remainder, "Some content\nMore content");
}

#[test]
fn empty_document() {
    let (variables, remainder) = parse_declarations("");
    assert!(variables.is_empty());
    assert_eq!(remainder, "");
}

#[test]
fn value_is_split_at_the_first_colon() {
    let (variables, remainder) = parse_declarations("<!-- @var url: http://example.com:80/x -->");
    assert_eq!(pairs(&variables), vec![("url", "http://example.com:80/x")]);
    assert_eq!(remainder, "");
}

#[test]
fn name_and_value_are_trimmed() {
    let (variables, _) = parse_declarations("  \t<!-- @var   spaced name \t:  some value   -->  ");
    assert_eq!(pairs(&variables), vec![("spaced name", "some value")]);
    let (variables, _) = parse_declarations("<!-- @var : -->");
    assert_eq!(pairs(&variables), vec![("", "")]);
    let (variables, _) = parse_declarations("\u{3000}<!-- @var a:\u{2003}b\u{00a0} -->\u{3000}");
    assert_eq!(pairs(&variables), vec![("a", "b")]);
}

#[test]
fn declaration_without_colon_vanishes() {
    let (variables, remainder) = parse_declarations("before\n<!-- @var no colon here -->\nafter");
    assert!(variables.is_empty());
    assert_eq!(remainder, "before\nafter");
}

#[test]
fn markers_that_share_their_blank_vanish() {
    let (variables, remainder) = parse_declarations("a\n<!-- @var -->\nb");
    assert!(variables.is_empty());
    assert_eq!(remainder, "a\nb");
}

#[test]
fn include_line_is_consumed() {
    let (variables, remainder) =
        parse_declarations("top\n<!-- @include: other.md -->\n  <!-- @include:x: y -->\nbottom");
    assert!(variables.is_empty());
    assert_eq!(remainder, "top\nbottom");
}

#[test]
fn other_spacing_in_the_markers_is_ordinary_text() {
    let content = "<!--@var a: 1 -->\n<!-- @var b: 2-->\n<!-- @var\tc: 3 -->\n<!-- @include other -->\n<!-- @variable: 4 -->";
    let (variables, remainder) = parse_declarations(content);
    assert!(variables.is_empty());
    assert_eq!(remainder, content);
}

#[test]
fn duplicate_names_both_survive() {
    let (variables, remainder) =
        parse_declarations("<!-- @var x: 1 -->\n<!-- @var y: 2 -->\n<!-- @var x: 3 -->");
    assert_eq!(pairs(&variables), vec![("x", "1"), ("y", "2"), ("x", "3")]);
    assert_eq!(remainder, "");
}

#[test]
fn kept_lines_are_verbatim() {
    let content = "  indented  \n\n\ttabbed\n<!-- @var a: b -->\n  trailing  ";
    let (_, remainder) = parse_declarations(content);
    assert_eq!(remainder, "  indented  \n\n\ttabbed\n  trailing  ");
}

#[test]
fn line_endings_are_normalised() {
    let (_, remainder) = parse_declarations("one\r\ntwo\nthree\n");
    assert_eq!(remainder, "one\ntwo\nthree");
    let (_, remainder) = parse_declarations("one\r\rtwo\r\r\nthree\r");
    assert_eq!(remainder, "one\r\rtwo\r\nthree\r");
    let (_, remainder) = parse_declarations("\n");
    assert_eq!(remainder, "");
    let (_, remainder) = parse_declarations("\n\n");
    assert_eq!(remainder, "\n");
    let (variables, remainder) = parse_declarations("<!-- @var a: b -->\r\ntext\r\n");
    assert_eq!(pairs(&variables), vec![("a", "b")]);
    assert_eq!(remainder, "text");
}

#[test]
fn parse_agrees_with_std_lines_and_trim() {
    let samples = [
        "a\nb",
        "a\r\nb\r\n",
        "\r\n\r\n",
        "x\r",
        "\r",
        " \u{85}<!-- @var k: v -->\u{2028}",
        "\u{b}<!-- @var k: v -->\u{c}",
        "\u{200b}<!-- @var k: v -->",
        "no newline at all",
        "ends\n",
    ];
    for sample in samples {
        let mut expected_vars: Vec<(String, String)> = Vec::new();
        let mut expected_lines: Vec<&str> = Vec::new();
        for line in sample.lines() {
            let t = line.trim();
            if t.starts_with("<!-- @var ") && t.ends_with(" -->") && t.len() >= 14 {
                let body = &t["<!-- @var ".len()..t.len() - " -->".len()];
                if let Some(i) = body.find(':') {
                    expected_vars.push((body[..i].trim().to_string(), body[i + 1..].trim().to_string()));
                }
            } else if t.starts_with("<!-- @include:") && t.ends_with(" -->") {
            } else {
                expected_lines.push(line);
            }
        }
        let (variables, remainder) = parse_declarations(sample);
        let got: Vec<(String, String)> =
            variables.into_iter().map(|v| (v.name, v.value)).collect();
        assert_eq!(got, expected_vars, "declarations of {:?}", sample);
        assert_eq!(remainder, expected_lines.join("\n"), "remainder of {:?}", sample);
    }
}
