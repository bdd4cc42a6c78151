use buidl::lm::{
    accept_reply, assistant_message, chat_request, LmError, LM_ENDPOINT, LM_MODEL,
};
use buidl::message::{
    bump_kind, check_message, commit_prompt, render_diff, render_text_diff, MessageError,
};
use buidl::text::white_space;

#[test]
fn the_type_decides_the_bump() {
    assert_eq!(bump_kind("feat: add"), "minor");
    assert_eq!(bump_kind("feat(ui): add"), "minor");
    assert_eq!(bump_kind("fix: mend"), "patch");
    assert_eq!(bump_kind("feature: add"), "patch");
    assert_eq!(bump_kind("no header at all"), "patch");
    assert_eq!(bump_kind("feat"), "minor");
    assert_eq!(bump_kind("\nfeat: late"), "patch");
}

#[test]
fn a_breaking_change_is_major() {
    assert_eq!(bump_kind("feat!: drop"), "major");
    assert_eq!(bump_kind("chore(api)!: drop"), "major");
    assert_eq!(bump_kind("fix: mend\n\nBREAKING CHANGE: gone"), "major");
    assert_eq!(bump_kind("fix: say BREAKING CHANGE"), "major");
    assert_eq!(bump_kind("fix: wow!"), "patch");
    assert_eq!(bump_kind("fix: breaking change"), "patch");
}

#[test]
fn conventional_messages_pass() {
    for kind in ["feat", "fix", "docs", "style", "refactor", "perf", "test", "build", "ci", "chore"] {
        for tail in [": x", "(scope): x", "!: x", "(scope)!: x", "!!: x", ": x\nbody: y"] {
            let message = format!("{kind}{tail}");
            assert_eq!(check_message(message.clone()).unwrap(), message);
        }
    }
}

#[test]
fn a_message_without_a_colon_is_refused() {
    match check_message("add things\nfix: no".to_string()) {
        Err(MessageError::NoHeader { message }) => assert_eq!(message, "add things\nfix: no"),
        other => panic!("{other:?}"),
    }
    assert!(matches!(check_message(String::new()), Err(MessageError::NoHeader { .. })));
}

#[test]
fn an_unknown_type_is_refused() {
    match check_message("Feat(x)!: y".to_string()) {
        Err(MessageError::UnknownType { type_part, message }) => {
            assert_eq!(type_part, "Feat");
            assert_eq!(message, "Feat(x)!: y");
        }
        other => panic!("{other:?}"),
    }
    match check_message("feat !: y".to_string()) {
        Err(MessageError::UnknownType { type_part, .. }) => assert_eq!(type_part, "feat "),
        other => panic!("{other:?}"),
    }
}

#[test]
fn the_fixed_messages_are_conventional_patches() {
    for message in ["chore: update", "docs: update documentation"] {
        assert_eq!(check_message(message.to_string()).unwrap(), message);
        assert_eq!(bump_kind(message), "patch");
    }
}

#[test]
fn a_diff_has_the_origin_before_changed_and_context_lines() {
    let lines = vec![
        ('F', b"diff --git a/x b/x\n".to_vec()),
        ('H', b"@@ -1 +1 @@\n".to_vec()),
        (' ', b"same\n".to_vec()),
        ('-', b"old\n".to_vec()),
        ('+', "n\u{e9}w\n".as_bytes().to_vec()),
        ('>', b"\\ No newline at end of file\n".to_vec()),
    ];
    let expected = "diff --git a/x b/x\n@@ -1 +1 @@\n same\n-old\n+n\u{e9}w\n\\ No newline at end of file\n";
    assert_eq!(render_diff(&lines), expected);
    assert_eq!(render_text_diff(&lines).unwrap(), expected);
}

#[test]
fn a_line_that_is_not_utf8_is_dropped_or_refused() {
    let lines = vec![('+', b"a\n".to_vec()), ('-', vec![0xff, 0xfe]), ('+', b"b\n".to_vec())];
    assert_eq!(render_diff(&lines), "+a\n-+b\n");
    assert_eq!(render_text_diff(&lines), None);
    assert_eq!(render_text_diff(&Vec::new()).unwrap(), "");
}

#[test]
fn the_prompt_ends_with_the_diff() {
    assert_eq!(
        commit_prompt("+x\n"),
        "Write a Conventional Commits message (type(scope): description). \
         Types: feat|fix|docs|style|refactor|perf|test|build|ci|chore. \
         Output a single line, no quotes, no markdown, no explanation.\n\nDIFF:\n+x\n"
    );
}

#[test]
fn the_request_is_for_the_local_model() {
    let request = chat_request("hello");
    assert_eq!(request.url, "http://localhost:1234/v1/chat/completions");
    assert_eq!(request.url, LM_ENDPOINT);
    assert_eq!(request.model, "qwen/qwen3.6-35b-a3b");
    assert_eq!(request.model, LM_MODEL);
    assert_eq!(request.content, "hello");
    assert_eq!(request.timeout_secs, 1800);
    assert_eq!(request.max_tokens, 8000);
    assert_eq!(f64::from(request.temperature_tenths) / 10.0, 0.2);
    assert!(!request.enable_thinking);
}

fn body(content: &str) -> Vec<u8> {
    format!(
        "{{\"choices\":[{{\"message\":{{\"role\":\"assistant\",\"content\":{content}}}}}]}}"
    )
    .into_bytes()
}

#[test]
fn a_reply_is_trimmed() {
    let reply = assistant_message(&body("\"\\n feat: x \\t\"")).unwrap();
    assert_eq!(reply, "feat: x");
    assert_eq!(accept_reply(Some(Some(reply.clone()))).unwrap(), reply);
    assert_eq!(assistant_message(&body("\"caf\\u00e9\"")).unwrap(), "café");
}

#[test]
fn each_error_of_a_response_is_told_apart() {
    assert_eq!(assistant_message(b"not json"), Err(LmError::Undecodable));
    assert_eq!(assistant_message(b""), Err(LmError::Undecodable));
    assert_eq!(assistant_message(b"{\"choices\":[]}"), Err(LmError::MissingContent));
    assert_eq!(assistant_message(&body("null")), Err(LmError::MissingContent));
    assert_eq!(assistant_message(&body("7")), Err(LmError::MissingContent));
    assert_eq!(assistant_message(&body("\" \\n\"")), Err(LmError::Empty));
    assert_eq!(accept_reply(None), Err(LmError::Undecodable));
    assert_eq!(accept_reply(Some(None)), Err(LmError::MissingContent));
    assert_eq!(accept_reply(Some(Some("\u{3000}".to_string()))), Err(LmError::Empty));
    assert_eq!(accept_reply(Some(Some(" ok ".to_string()))).unwrap(), "ok");
}

#[test]
fn white_space_is_what_the_standard_library_takes_for_it() {
    for c in '\0'..=char::MAX {
        assert_eq!(white_space(c), c.is_whitespace(), "{c:?}");
    }
}
