use acp_sandbox::skills::{
    parse_frontmatter, requote_description, split_frontmatter, yaml_value_to_trimmed_string,
    ParsedFrontmatter, RawFrontmatter, YamlValue,
};

fn field(map: &serde_yaml::Mapping, key: &str) -> Option<YamlValue> {
    match map.get(serde_yaml::Value::String(key.to_string())) {
        None => None,
        Some(serde_yaml::Value::Null) => None,
        Some(serde_yaml::Value::String(s)) => Some(YamlValue::Text(s.clone())),
        Some(serde_yaml::Value::Bool(b)) => Some(YamlValue::Bool(*b)),
        Some(serde_yaml::Value::Number(n)) => Some(YamlValue::Number(n.to_string())),
        Some(_) => Some(YamlValue::Other),
    }
}

fn parse(text: &str) -> Result<RawFrontmatter, String> {
    match serde_yaml::from_str::<serde_yaml::Value>(text) {
        Ok(serde_yaml::Value::Mapping(map)) => Ok(RawFrontmatter {
            name: field(&map, "name"),
            description: field(&map, "description"),
        }),
        Ok(_) => Err("no mapping".to_string()),
        Err(e) => Err(e.to_string()),
    }
}

fn parsed(text: &str) -> (Option<String>, Option<String>) {
    let ParsedFrontmatter { name, description } = parse_frontmatter(text, parse).unwrap();
    (name, description)
}

#[test]
fn frontmatter_is_split_off() {
    assert_eq!(
        split_frontmatter("---\nname: x\n---\nbody\nmore"),
        Ok(("name: x\n", "body\nmore"))
    );
    assert_eq!(split_frontmatter("---\r\na\r\n---\r\nb"), Ok(("a\r\n", "b")));
    assert_eq!(split_frontmatter("---\n---"), Ok(("", "")));
    assert_eq!(split_frontmatter("---\n----\n--- \n---\r\r\n"), Ok(("----\n--- \n", "")));
    assert_eq!(
        split_frontmatter("\u{feff}\u{feff}---\n\u{e9}\n---\n\u{e9}"),
        Ok(("\u{e9}\n", "\u{e9}"))
    );
}

#[test]
fn files_without_frontmatter_are_refused() {
    for raw in ["", "name: x", " ---\n---\n", "----\n---\n", "---", "--- \n---\n"] {
        assert_eq!(split_frontmatter(raw), Err("file does not start with `---`"), "{raw:?}");
    }
    for raw in ["---\n", "---\nname: x\n", "---\n ---\n"] {
        assert_eq!(split_frontmatter(raw), Err("no closing `---` for frontmatter"), "{raw:?}");
    }
}

#[test]
fn a_split_loses_nothing() {
    let raw = "---\nname: x\ndescription: y\n---\nbody\n---\n";
    let (front, body) = split_frontmatter(raw).unwrap();
    assert_eq!(format!("---\n{front}---\n{body}"), raw);
}

#[test]
fn bare_descriptions_are_put_in_quotes() {
    assert_eq!(
        requote_description("name: x\ndescription:  Use when: \"a\\b\"\r\nx: y\n").unwrap(),
        "name: x\ndescription: \"Use when: \\\"a\\\\b\\\"\"\r\nx: y\n"
    );
    assert_eq!(
        requote_description("description: a: b\ndescription: c: d").unwrap(),
        "description: \"a: b\"\ndescription: c: d"
    );
    assert_eq!(
        requote_description("description: plain\ndescription: c: d").unwrap(),
        "description: plain\ndescription: \"c: d\""
    );
    for yaml in [
        "",
        "description: plain",
        "description:",
        "description: \"a: b\"",
        "description: 'a: b'",
        "description: |\n  a: b",
        "description: >\n  a: b",
        " description: a: b",
        "name: a: b",
    ] {
        assert!(requote_description(yaml).is_none(), "{yaml:?}");
    }
}

#[test]
fn a_quoted_description_needs_no_quotes() {
    let once = requote_description("description: a: b").unwrap();
    assert!(requote_description(&once).is_none());
}

#[test]
fn names_and_descriptions_are_read() {
    assert_eq!(
        parsed("name: pdf\ndescription: ' Reads PDFs '\nother: [1]\n"),
        (Some("pdf".to_string()), Some("Reads PDFs".to_string()))
    );
    assert_eq!(parsed("name: true\ndescription: 1.50\n").0, Some("true".to_string()));
    assert_eq!(parsed("name: 42\n"), (Some("42".to_string()), None));
    assert_eq!(parsed("name: ~\ndescription: [a]\n"), (None, None));
}

#[test]
fn a_bare_colon_is_tolerated() {
    assert_eq!(
        parsed("name: pdf\ndescription: Use this skill when: the user asks about PDFs\n"),
        (
            Some("pdf".to_string()),
            Some("Use this skill when: the user asks about PDFs".to_string())
        )
    );
}

#[test]
fn the_first_error_is_reported() {
    let numbered = |text: &str| -> Result<RawFrontmatter, String> {
        Err(if text.contains('"') {
            "second".to_string()
        } else {
            "first".to_string()
        })
    };
    assert_eq!(parse_frontmatter("description: a: b", numbered).unwrap_err(), "first");
    assert_eq!(parse_frontmatter("name: a: b", numbered).unwrap_err(), "first");
    assert!(parse_frontmatter("name: [", parse).is_err());
}

#[test]
fn scalars_become_text() {
    let text = |v| yaml_value_to_trimmed_string(v);
    assert_eq!(text(YamlValue::Text("\t a b \n".to_string())), Some("a b".to_string()));
    assert_eq!(text(YamlValue::Bool(false)), Some("false".to_string()));
    assert_eq!(text(YamlValue::Number("1e3".to_string())), Some("1e3".to_string()));
    assert_eq!(text(YamlValue::Other), None);
    let default = ParsedFrontmatter::default();
    assert!(default.name.is_none() && default.description.is_none());
}
