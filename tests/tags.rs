use clewdr::tags::{extract_top_level_tags, parse_required_tags, validate_required_tags};

#[test]
fn test_validate_required_tags_empty_config() {
    assert!(validate_required_tags("any content", "").is_ok());
    assert!(validate_required_tags("any content", "   ").is_ok());
}

#[test]
fn test_validate_required_tags_basic_functionality() {
    assert!(validate_required_tags("<assess>yes</assess>", "assess").is_ok());
    assert!(validate_required_tags(
        "<assess>yes</assess><thinking>process</thinking>",
        "assess,thinking"
    )
    .is_ok());
    assert!(validate_required_tags("<details/>", "details").is_ok());
    assert!(validate_required_tags("<assess>yes</assess><details/>", "assess,details").is_ok());
}

#[test]
fn test_validate_required_tags_missing_tags() {
    assert!(validate_required_tags("no tags here", "assess").is_err());
    assert!(validate_required_tags("<assess>yes</assess>", "assess,thinking").is_err());
    assert!(validate_required_tags("<thinking>process</thinking>", "assess").is_err());
}

#[test]
fn test_validate_required_tags_unclosed_tags() {
    assert!(validate_required_tags("<assess>incomplete", "assess").is_err());
    assert!(validate_required_tags(
        "<assess>yes</assess><thinking>incomplete",
        "assess,thinking"
    )
    .is_err());
    assert!(validate_required_tags(
        "<assess><thinking></assess></thinking>",
        "assess,thinking"
    )
    .is_err());
}

#[test]
fn test_validate_required_tags_nesting() {
    assert!(validate_required_tags(
        "<assess><thinking>nested</thinking></assess>",
        "assess"
    )
    .is_ok());
    assert!(validate_required_tags(
        "<assess></assess><thinking></thinking>",
        "assess,thinking"
    )
    .is_ok());
    assert!(validate_required_tags("<other><assess>nested</assess></other>", "assess").is_err());
}

#[test]
fn test_validate_required_tags_tag_name_precision() {
    assert!(validate_required_tags("<thinking>content</thinking>", "thinking").is_ok());
    assert!(validate_required_tags("<thinking>content</thinking>", "think").is_err());
    assert!(validate_required_tags("<think>content</think>", "think").is_ok());
    assert!(validate_required_tags(
        "<think>a</think><thinking>b</thinking>",
        "think,thinking"
    )
    .is_ok());
}

#[test]
fn test_validate_required_tags_case_insensitive() {
    assert!(validate_required_tags("<ASSESS>content</ASSESS>", "ASSESS").is_ok());
    assert!(validate_required_tags("<assess>content</assess>", "ASSESS").is_err());
}

#[test]
fn test_validate_required_tags_truncation_detection() {
    assert!(validate_required_tags("<asse", "assess").is_err());
    assert!(validate_required_tags("<assess>content</asse", "assess").is_err());
    assert!(validate_required_tags("1 < 2 and 3 > 1", "assess").is_err());
}

#[test]
fn test_detailed_error_messages() {
    let result = validate_required_tags("<thinking>unclosed", "thinking");
    assert!(result.is_err());
    let error = result.unwrap_err();
    println!("Unclosed tag error: {}", error);
    assert!(error.contains("Unclosed top-level tags: thinking"));

    let result = validate_required_tags("<other>content</other>", "thinking");
    assert!(result.is_err());
    let error = result.unwrap_err();
    println!("Missing tag error: {}", error);
    assert!(error.contains("Required tag 'thinking' not found at top level"));

    let result = validate_required_tags("<thinking><assess></thinking></assess>", "thinking,assess");
    assert!(result.is_err());
    let error = result.unwrap_err();
    println!("Mismatched tag error: {}", error);

    let result = validate_required_tags("<thinking>content</thinking>", "thinking");
    assert!(result.is_ok());
}

#[test]
fn test_lenient_nested_parsing() {
    let test_content = "<thinking>content <broken>unclosed nested</thinking>";
    match extract_top_level_tags(test_content) {
        Ok(tags) => println!("Extracted tags: {:?}", tags),
        Err(e) => println!("Extraction error: {}", e),
    }
    let result = validate_required_tags(test_content, "thinking");
    if let Err(e) = &result {
        println!("Case 1 failed: {}", e);
    }
    assert!(result.is_ok());

    let result = validate_required_tags(
        "<thinking><part><other></part></other>completed</thinking>",
        "thinking",
    );
    assert!(result.is_ok());

    let result = validate_required_tags(
        "<thinking><broken>unclosed</thinking><content>good content</content>",
        "thinking,content",
    );
    assert!(result.is_ok());

    let result = validate_required_tags("<thinking>content <nested>fine</nested>", "thinking");
    assert!(result.is_err());
    let error = result.unwrap_err();
    assert!(error.contains("Unclosed top-level tags: thinking"));

    let result = validate_required_tags("<thinking>content</content>", "thinking");
    assert!(result.is_err());
    let error = result.unwrap_err();
    assert!(error.contains("Top-level tag mismatch"));
}

#[test]
fn test_complex_nested_scenarios() {
    let content = r#"
<thinking>
This is thinking content with `<part_of_user>` reference and other stuff.
Some more content with <nested_tag>that might be broken
</thinking>
<content>
Main content here
</content>
"#;
    let result = validate_required_tags(content, "thinking,content");
    assert!(result.is_ok());
    let top_level_tags = extract_top_level_tags(content).unwrap();
    assert_eq!(top_level_tags, vec!["thinking", "content"]);
}

#[test]
fn empty_text_with_empty_list_is_accepted() {
    assert_eq!(validate_required_tags("", ""), Ok(()));
}

#[test]
fn closed_tag_is_accepted() {
    assert_eq!(validate_required_tags("<A></A>", "A"), Ok(()));
}

#[test]
fn unclosed_tag_message_is_exact() {
    assert_eq!(
        validate_required_tags("<A>x", "A"),
        Err("Unclosed top-level tags: A".to_string())
    );
    assert_eq!(
        extract_top_level_tags("<A>x"),
        Err("Unclosed top-level tags: A".to_string())
    );
}

#[test]
fn mismatch_message_is_exact() {
    assert_eq!(
        extract_top_level_tags("<A></B>"),
        Err("Top-level tag mismatch: expected '</A>' but found '</B>'".to_string())
    );
    assert_eq!(
        validate_required_tags("<A>x</B>", "A"),
        Err("Top-level tag mismatch: expected '</A>' but found '</B>'".to_string())
    );
}

#[test]
fn inner_tag_closed_after_its_top_level_tag_is_a_mismatch() {
    assert_eq!(
        validate_required_tags("<A><B></A></B>", "A"),
        Err("Top-level tag mismatch: expected '</A>' but found '</B>'".to_string())
    );
    assert_eq!(
        extract_top_level_tags("<A><B></A><C></C></B>"),
        Err("Top-level tag mismatch: expected '</A>' but found '</B>'".to_string())
    );
}

#[test]
fn inner_tag_reopened_later_is_fine() {
    assert_eq!(
        extract_top_level_tags("<A><B></A><C><B></B></C>"),
        Ok(vec!["A".to_string(), "C".to_string()])
    );
}

#[test]
fn broken_nested_tag_is_tolerated() {
    assert_eq!(validate_required_tags("<A><broken>x</A>", "A"), Ok(()));
}

#[test]
fn tag_names_must_match_whole() {
    assert_eq!(
        validate_required_tags("<think>x</think>", "thinking"),
        Err("Required tag 'thinking' not found at top level".to_string())
    );
    assert_eq!(
        validate_required_tags("<thinking>x</thinking>", "think"),
        Err("Required tag 'think' not found at top level".to_string())
    );
}

#[test]
fn required_tags_both_at_top_level() {
    assert_eq!(
        validate_required_tags("<thinking>a</thinking><content>b</content>", "thinking,content"),
        Ok(())
    );
}

#[test]
fn required_tag_nested_is_rejected() {
    assert_eq!(
        validate_required_tags("<content><thinking>a</thinking></content>", "thinking,content"),
        Err("Required tag 'thinking' not found at top level".to_string())
    );
}

#[test]
fn required_list_is_trimmed_and_filtered() {
    assert_eq!(
        parse_required_tags(" thinking , ,content,\t"),
        vec!["thinking".to_string(), "content".to_string()]
    );
    assert!(parse_required_tags(" , ").is_empty());
}

#[test]
fn comments_and_self_closing_tags() {
    assert_eq!(
        extract_top_level_tags("<!-- c --><?xml?><a/><b>x</b>"),
        Ok(vec!["a".to_string(), "b".to_string()])
    );
    assert_eq!(
        extract_top_level_tags("plain < text"),
        Err("Unclosed top-level tags: ".to_string())
    );
}
