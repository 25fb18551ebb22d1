use skill_translator::fields::get_field;
use skill_translator::parser::ContentParser;
use skill_translator::pattern::escape;

#[test]
fn test_parse_frontmatter() {
    let content = r#"---
name: test-skill
version: 1.0.0
description: "A test skill"
---

# Content here
"#;

    let parser = ContentParser::new();
    let parsed = parser.parse(content);

    assert!(!parsed.frontmatter.is_empty());
    assert_eq!(
        get_field(&parsed.frontmatter_dict, "name").and_then(|v| v.as_str()),
        Some("test-skill")
    );
    assert!(parsed.body.contains("# Content here"));
}

#[test]
fn test_code_block_replacement() {
    let body = r#"Some text

```python
print("hello")
```

More text"#;

    let parser = ContentParser::new();
    let code_blocks = parser.extract_code_blocks(body);

    let replaced = parser.replace_code_blocks(body, &code_blocks);
    assert!(replaced.contains("___CODE_BLOCK_0___"));
    assert!(!replaced.contains("print(\"hello\")"));

    let restored = parser.restore_code_blocks(&replaced, &code_blocks);
    assert!(restored.contains("print(\"hello\")"));
}

#[test]
fn test_parse_frontmatter_with_multiline_metadata() {
    let content = r#"---
name: web-monitor
version: 3.1.0
description: "Monitor web pages for changes, price drops, stock availability, and custom conditions."
metadata:
  {
    "openclaw":
      {
        "emoji": "👁️",
        "requires": { "bins": ["python3", "curl"] },
      },
  }
---

# Web Monitor Pro
"#;

    let parser = ContentParser::new();
    let parsed = parser.parse(content);

    assert!(!parsed.frontmatter.is_empty(), "Frontmatter should not be empty");

    let description = parser.get_description_field(&parsed.frontmatter_dict);
    assert!(description.is_some(), "Description should be extracted");
    assert!(
        description.unwrap().contains("Monitor web pages"),
        "Description should contain expected text"
    );

    assert_eq!(
        get_field(&parsed.frontmatter_dict, "name").and_then(|v| v.as_str()),
        Some("web-monitor")
    );

    assert!(parsed.body.contains("# Web Monitor Pro"));
    assert!(!parsed.body.contains("description:"));
}

#[test]
fn test_parse_frontmatter_inline_metadata() {
    let content = r#"---
name: 0protocol
description: Agents can sign plugins, rotate credentials without losing identity.
homepage: https://github.com/0isone/0protocol
metadata: {"openclaw":{"emoji":"🪪","requires":{"bins":["mcporter"]}}}
---

# Content
"#;

    let parser = ContentParser::new();
    let parsed = parser.parse(content);

    assert!(!parsed.frontmatter.is_empty(), "Frontmatter should not be empty");

    let description = parser.get_description_field(&parsed.frontmatter_dict);
    assert!(description.is_some(), "Description should be extracted");
    let desc = description.unwrap();
    assert!(
        desc.contains("Agents can sign plugins"),
        "Description should contain expected text: {:?}",
        desc
    );

    assert_eq!(
        get_field(&parsed.frontmatter_dict, "name").and_then(|v| v.as_str()),
        Some("0protocol")
    );
}

#[test]
fn test_translate_frontmatter_field_quoted() {
    let frontmatter = r#"---
name: test
description: "This is a test description"
---
"#;
    let parser = ContentParser::new();
    let result = parser.translate_frontmatter_field(frontmatter, "description", "这是测试描述");

    assert!(
        result.contains(r#"description: "这是测试描述""#),
        "Should contain translated description with quotes: {}",
        result
    );
    assert!(!result.contains("This is a test description"));
}

#[test]
fn test_translate_frontmatter_field_unquoted() {
    let frontmatter = r#"---
name: test
description: This is a test description without quotes
---
"#;
    let parser = ContentParser::new();
    let result =
        parser.translate_frontmatter_field(frontmatter, "description", "这是没有引号的测试描述");

    assert!(
        result.contains("description: 这是没有引号的测试描述"),
        "Should contain translated description without quotes: {}",
        result
    );
    assert!(!result.contains("This is a test description"));
}

#[test]
fn test_parse_frontmatter_folded_description() {
    let content = r#"---
name: solo-leveling
description: >
  Solo Leveling — a life RPG skill that turns real-world habits into an addictive progression
  system. Inspired by the manhwa Solo Leveling, this skill features 6 stats.
metadata:
  openclaw:
    emoji: "⚔️"
---

# Content
"#;

    let parser = ContentParser::new();
    let parsed = parser.parse(content);

    assert!(!parsed.frontmatter.is_empty(), "Frontmatter should not be empty");

    let description = parser.get_description_field(&parsed.frontmatter_dict);
    println!("Parsed description: {:?}", description);
    println!("Parsed frontmatter_dict: {:?}", parsed.frontmatter_dict);

    assert!(
        description.is_some() || get_field(&parsed.frontmatter_dict, "description").is_some(),
        "Description field should exist"
    );
}

#[test]
fn test_translate_frontmatter_field_folded() {
    let frontmatter = r#"---
name: test
description: >
  This is a multi-line description
  that spans multiple lines.
---
"#;
    let parser = ContentParser::new();
    let result = parser.translate_frontmatter_field(frontmatter, "description", "这是多行描述的翻译");

    println!("Result: {}", result);
    assert!(
        result.contains("description: 这是多行描述的翻译"),
        "Should contain translated description: {}",
        result
    );
    assert!(!result.contains("This is a multi-line"));
    assert!(!result.contains("that spans"));
    assert!(!result.contains("description: >"));
}

#[test]
fn test_translate_frontmatter_field_multiline_value() {
    let frontmatter = r#"---
name: test
description: >
  This is a multi-line description
  that spans multiple lines.
---
"#;
    let parser = ContentParser::new();
    let translated = "这是第一行描述。\n这是第二行描述。\n这是第三行描述。";
    let result = parser.translate_frontmatter_field(frontmatter, "description", translated);

    println!("Result:\n{}", result);
    assert!(
        result.contains("description: >"),
        "Should use folded block format for multiline: {}",
        result
    );
    assert!(result.contains("  这是第一行描述。"), "Should have indented content: {}", result);
    assert!(result.contains("  这是第二行描述。"), "Should have indented content: {}", result);
    assert!(result.contains("  这是第三行描述。"), "Should have indented content: {}", result);
    assert!(!result.contains("This is a multi-line"));
}

#[test]
fn test_translate_frontmatter_field_with_empty_lines() {
    let frontmatter = r#"---
name: test
description: Some description here.
---
"#;
    let parser = ContentParser::new();
    let translated = "这是第一行描述。

这是第二行描述，前面有空行。

这是第三行描述。";
    let result = parser.translate_frontmatter_field(frontmatter, "description", translated);

    println!("Result:\n{}", result);
    assert!(result.contains("description: >"), "Should use folded block format: {}", result);
    assert!(result.contains("  这是第一行描述。"), "Should have first line: {}", result);
    assert!(
        result.contains("  这是第二行描述，前面有空行。"),
        "Should have second line: {}",
        result
    );
    assert!(result.contains("  这是第三行描述。"), "Should have third line: {}", result);
    let lines: Vec<&str> = result.lines().collect();
    let desc_start = lines.iter().position(|l| l.starts_with("description:")).unwrap();
    let desc_lines: Vec<&&str> = lines[desc_start..]
        .iter()
        .take_while(|l| l.starts_with("  ") || l.starts_with("description:"))
        .collect();
    for line in desc_lines {
        if line.starts_with("  ") {
            assert!(
                !line.trim().is_empty(),
                "Should not have empty lines in description block: {:?}",
                line
            );
        }
    }
}

#[test]
fn parse_without_header_keeps_the_document_as_body() {
    let parser = ContentParser::new();
    let parsed = parser.parse("# Title\n\ntext\n");
    assert_eq!(parsed.frontmatter, "");
    assert!(parsed.frontmatter_dict.is_empty());
    assert_eq!(parsed.body, "# Title\n\ntext\n");
    assert!(parsed.code_blocks.is_empty());
}

#[test]
fn parse_splits_header_and_body_exactly() {
    let parser = ContentParser::new();
    let parsed = parser.parse("---\nname: a\n---\nbody\n---\nmore\n");
    assert_eq!(parsed.frontmatter, "---\nname: a\n---\n");
    assert_eq!(parsed.body, "body\n---\nmore\n");
}

#[test]
fn parse_of_unreadable_header_gives_no_fields() {
    let parser = ContentParser::new();
    let parsed = parser.parse("---\nname: [unclosed\n---\nbody\n");
    assert_eq!(parsed.frontmatter, "---\nname: [unclosed\n---\n");
    assert!(parsed.frontmatter_dict.is_empty());
    assert_eq!(parsed.body, "body\n");
}

#[test]
fn parse_of_header_that_is_no_mapping_gives_no_fields() {
    let parser = ContentParser::new();
    let parsed = parser.parse("---\n- a\n- b\n---\nbody\n");
    assert!(parsed.frontmatter_dict.is_empty());
}

#[test]
fn code_blocks_come_in_order_with_their_placeholders() {
    let parser = ContentParser::new();
    let body = "a\n```rust\nfn main() {}\n```\nb\n```\nplain\n```\nc";
    let blocks = parser.extract_code_blocks(body);
    assert_eq!(blocks.len(), 2);
    assert_eq!(blocks[0].0, "rust");
    assert_eq!(blocks[0].1, "fn main() {}\n");
    assert_eq!(blocks[0].2, "___CODE_BLOCK_0___");
    assert_eq!(blocks[1].0, "");
    assert_eq!(blocks[1].1, "plain\n");
    assert_eq!(blocks[1].2, "___CODE_BLOCK_1___");
    let replaced = parser.replace_code_blocks(body, &blocks);
    assert_eq!(replaced, "a\n___CODE_BLOCK_0___\nb\n___CODE_BLOCK_1___\nc");
}

#[test]
fn placeholders_are_distinct_beyond_ten_blocks() {
    let parser = ContentParser::new();
    let mut body = String::new();
    for i in 0..12 {
        body.push_str(&format!("```\nblock {}\n```\n", i));
    }
    let blocks = parser.extract_code_blocks(&body);
    assert_eq!(blocks.len(), 12);
    assert_eq!(blocks[10].2, "___CODE_BLOCK_10___");
    assert_eq!(blocks[11].2, "___CODE_BLOCK_11___");
    for i in 0..blocks.len() {
        for j in 0..i {
            assert_ne!(blocks[i].2, blocks[j].2);
        }
    }
    let replaced = parser.replace_code_blocks(&body, &blocks);
    assert_eq!(parser.restore_code_blocks(&replaced, &blocks), body);
}

#[test]
fn substitute_then_restore_gives_the_body_back() {
    let parser = ContentParser::new();
    let body = "Intro $1 \\d+\n\n```regex\n^(a|b)*\\s+[x-z]{2,3}?$ .*+ \\( \\) $0 ${name}\n```\n\nmiddle (text)\n\n```sh\necho \"$HOME\" | grep -E '^[[:alpha:]]+\\.txt$' && ls *.{rs,toml}\n```\nend";
    let blocks = parser.extract_code_blocks(body);
    assert_eq!(blocks.len(), 2);
    let replaced = parser.replace_code_blocks(body, &blocks);
    assert!(!replaced.contains("```"));
    assert!(replaced.contains("___CODE_BLOCK_0___"));
    assert!(replaced.contains("___CODE_BLOCK_1___"));
    let restored = parser.restore_code_blocks(&replaced, &blocks);
    assert_eq!(restored, body);
}

#[test]
fn replace_code_blocks_replaces_the_first_occurrence_only() {
    let parser = ContentParser::new();
    let blocks = vec![("".to_string(), "x\n".to_string(), "<P>".to_string())];
    let out = parser.replace_code_blocks("```\nx\n``` and ```\nx\n```", &blocks);
    assert_eq!(out, "<P> and ```\nx\n```");
}

#[test]
fn restore_code_blocks_replaces_every_occurrence() {
    let parser = ContentParser::new();
    let blocks = vec![("py".to_string(), "x\n".to_string(), "<P>".to_string())];
    let out = parser.restore_code_blocks("<P> and <P>", &blocks);
    assert_eq!(out, "```py\nx\n``` and ```py\nx\n```");
}

#[test]
fn only_the_description_is_translatable() {
    let parser = ContentParser::new();
    assert!(parser.is_translatable_field("description"));
    assert!(!parser.is_translatable_field("name"));
    assert!(!parser.is_translatable_field("Description"));
    assert!(!parser.is_translatable_field(""));
}

#[test]
fn description_of_another_type_counts_as_absent() {
    let parser = ContentParser::new();
    let parsed = parser.parse("---\ndescription: 42\nname: x\n---\n");
    assert!(get_field(&parsed.frontmatter_dict, "description").is_some());
    assert_eq!(parser.get_description_field(&parsed.frontmatter_dict), None);
    let parsed = parser.parse("---\nname: x\n---\n");
    assert_eq!(parser.get_description_field(&parsed.frontmatter_dict), None);
    let parsed = parser.parse("---\ndescription: !!str tagged text\n---\n");
    assert_eq!(
        parser.get_description_field(&parsed.frontmatter_dict),
        Some("tagged text".to_string())
    );
}

#[test]
fn escape_is_what_the_regex_crate_does() {
    for text in ["", "plain", "\\.+*?()|[]{}^$#&-~", "a.b", "%/!\"e", "世界 (x)", "```\n$1\n```"] {
        assert_eq!(escape(text), regex::escape(text), "for {:?}", text);
    }
    assert_eq!(escape("a.b"), "a\\.b");
}

fn some(text: &str) -> Option<String> {
    Some(text.to_string())
}

#[test]
fn split_header_goes_by_the_groups_of_the_match() {
    let parser = ContentParser::new();
    let content = "---\nname: a\n---\nbody\n";
    let groups = Some(vec![some("---\nname: a\n---\n"), some("name: a")]);
    assert_eq!(
        parser.split_header(content, &groups),
        ("---\nname: a\n---\n".to_string(), some("name: a"), "body\n".to_string())
    );
    let whole = Some(vec![some(content), some("")]);
    assert_eq!(
        parser.split_header(content, &whole),
        (content.to_string(), some(""), String::new())
    );
}

#[test]
fn split_header_takes_no_match_that_is_not_at_the_start() {
    let parser = ContentParser::new();
    let content = "x---\nname: a\n---\nbody\n";
    let kept = (String::new(), None, content.to_string());
    for groups in [
        None,
        Some(vec![]),
        Some(vec![some("x")]),
        Some(vec![some("---\nname: a\n---\n"), some("name: a")]),
        Some(vec![some("x"), None]),
        Some(vec![None, some("name: a")]),
        Some(vec![some("a much longer text than the document is, all in all"), some("")]),
    ] {
        assert_eq!(parser.split_header(content, &groups), kept, "for {:?}", groups);
    }
}

#[test]
fn header_and_body_are_the_document() {
    let parser = ContentParser::new();
    for content in ["", "text", "---\na: 1\n---\n", "---\na: 1\n---\n\n\nbody", "--- \nx\n---\t\nrest"] {
        let parsed = parser.parse(content);
        assert_eq!(format!("{}{}", parsed.frontmatter, parsed.body), content);
    }
}

#[test]
fn blocks_go_by_the_groups_of_the_matches() {
    let parser = ContentParser::new();
    let found = vec![
        vec![some("```py\nx```"), some("py"), some("x")],
        vec![some("```\n```"), None, None],
        vec![some("odd")],
    ];
    let blocks = parser.blocks_from_matches(&found);
    assert_eq!(
        blocks,
        vec![
            ("py".to_string(), "x".to_string(), "___CODE_BLOCK_0___".to_string()),
            (String::new(), String::new(), "___CODE_BLOCK_1___".to_string()),
            (String::new(), String::new(), "___CODE_BLOCK_2___".to_string()),
        ]
    );
    assert!(parser.blocks_from_matches(&Vec::new()).is_empty());
}
