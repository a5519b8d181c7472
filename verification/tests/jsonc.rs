use knope::jsonc::strip_json_comments;

#[test]
fn line_comments_go_up_to_the_line_break() {
    assert_eq!(strip_json_comments("a // b\nc"), "a \nc");
    assert_eq!(strip_json_comments("a // b"), "a ");
    assert_eq!(strip_json_comments("a // b\r\nc"), "a \nc");
    assert_eq!(strip_json_comments("// \"\n\"x\""), "\n\"x\"");
}

#[test]
fn block_comments_go_as_a_whole() {
    assert_eq!(strip_json_comments("a/* b\n */c"), "ac");
    assert_eq!(strip_json_comments("/***/x"), "x");
    assert_eq!(strip_json_comments("/**//x"), "/x");
    assert_eq!(strip_json_comments("/* // */x"), "x");
}

#[test]
fn an_open_block_comment_reaches_to_the_end() {
    assert_eq!(strip_json_comments("a/*/b"), "a");
    assert_eq!(strip_json_comments("a/* b *"), "a");
}

#[test]
fn strings_keep_their_markers() {
    let text = r#"{"a": "// \" /* \\", "b": "*/"}"#;
    assert_eq!(strip_json_comments(text), text);
    assert_eq!(strip_json_comments(r#""\\"//x"#), r#""\\""#);
    assert_eq!(strip_json_comments("\"\\"), "\"\\");
}

#[test]
fn a_lone_slash_stays() {
    assert_eq!(strip_json_comments("a / b /"), "a / b /");
    assert_eq!(strip_json_comments("\\\"//\""), "\\\"//\"");
}

#[test]
fn stripping_twice_is_stripping_once() {
    for text in ["/**//x", "a // b /* \n c */ d", "\"//\" // \"", "/ /* */ /"] {
        let once = strip_json_comments(text);
        assert_eq!(strip_json_comments(&once), once);
        assert!(once.len() <= text.len());
    }
}

#[test]
fn characters_beyond_ascii_stay() {
    assert_eq!(strip_json_comments("\"é\" // ü\n\"日本\""), "\"é\" \n\"日本\"");
}

#[test]
fn a_comment_that_is_put_into_json_is_removed() {
    let front = r#"{"a": "/*", "b":"#;
    let back = r#" ["//", 1]}"#;
    let json = format!("{}{}", front, back);
    assert_eq!(strip_json_comments(&json), json);
    for text in ["", "*", "/", "**", " // \n \" ", "/* "] {
        let commented = format!("{}/*{}*/{}", front, text, back);
        assert_eq!(strip_json_comments(&commented), json);
    }
    for text in ["", "/", " /* ", " \" ", "*/"] {
        let commented = format!("{}//{}\n{}", front, text, back);
        assert_eq!(
            strip_json_comments(&commented),
            format!("{}\n{}", front, back)
        );
        let last = format!("{}//{}", json, text);
        assert_eq!(strip_json_comments(&last), json);
    }
}
