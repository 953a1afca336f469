use effisuite_logic::compression::{
    apply_compression, build_compression_prompt, parse_compression_response, CompressionAction,
    CompressionState,
};
use effisuite_logic::models::{Attachment, AttachmentKind, Message, Role};

#[test]
fn parse_multiple_acts() {
    let text = r#"
<act>
  <reason>需要保留</reason>
  <method>保持</method>
  <completionId>[m1,m2]</completionId>
</act>
<act>
  <reason>无关话题</reason>
  <method>隐藏</method>
  <completionId>[m3]</completionId>
</act>
<act>
  <reason>语义压缩</reason>
  <method>替换</method>
  <completionId>[m4]</completionId>
  <newContent>简短表述</newContent>
</act>
"#;
    let actions = parse_compression_response(text).unwrap();
    assert_eq!(actions.len(), 3);
    assert!(matches!(
        &actions[0],
        CompressionAction::Keep { message_ids, .. } if message_ids == &["m1".to_string(), "m2".to_string()]
    ));
    assert!(matches!(&actions[1], CompressionAction::Hide { .. }));
    if let CompressionAction::Replace { new_content, message_ids, .. } = &actions[2] {
        assert_eq!(new_content, "简短表述");
        assert_eq!(message_ids, &["m4".to_string()]);
    } else {
        panic!("expected Replace");
    }
}

#[test]
fn parse_skips_malformed_acts() {
    let text = r#"
<act>
  <reason>正常</reason>
  <method>保持</method>
  <completionId>[m1]</completionId>
</act>
<act>
  <reason>缺少 method</reason>
  <completionId>[m2]</completionId>
</act>
<act>
  <reason>未知 method</reason>
  <method>删除</method>
  <completionId>[m3]</completionId>
</act>
<act>
  <reason>空 completionId</reason>
  <method>隐藏</method>
  <completionId>[]</completionId>
</act>
"#;
    let actions = parse_compression_response(text).unwrap();
    assert_eq!(actions.len(), 1);
    assert!(matches!(&actions[0], CompressionAction::Keep { .. }));
}

#[test]
fn parse_completion_id_array() {
    let text = r#"
<act>
  <reason>test</reason>
  <method>隐藏</method>
  <completionId>[a, b , c,d ,e]</completionId>
</act>
"#;
    let actions = parse_compression_response(text).unwrap();
    assert_eq!(actions.len(), 1);
    assert_eq!(
        actions[0].message_ids(),
        &["a".to_string(), "b".to_string(), "c".to_string(), "d".to_string(), "e".to_string()]
    );
}

#[test]
fn parse_completion_id_without_brackets() {
    let text = r#"<act><reason>r</reason><method>保持</method><completionId>x,y</completionId></act>"#;
    let actions = parse_compression_response(text).unwrap();
    assert_eq!(actions.len(), 1);
    assert_eq!(actions[0].message_ids(), &["x".to_string(), "y".to_string()]);
}

#[test]
fn parse_replace_with_new_content() {
    let text = r#"<act><reason>r</reason><method>替换</method><completionId>[x]</completionId><newContent>新内容</newContent></act>"#;
    let actions = parse_compression_response(text).unwrap();
    assert_eq!(actions.len(), 1);
    if let CompressionAction::Replace { new_content, .. } = &actions[0] {
        assert_eq!(new_content, "新内容");
    } else {
        panic!("expected Replace");
    }
}

#[test]
fn parse_replace_missing_new_content_errors() {
    let text = r#"<act><reason>r</reason><method>替换</method><completionId>[x]</completionId></act>"#;
    let actions = parse_compression_response(text).unwrap();
    assert_eq!(actions.len(), 0);
}

#[test]
fn parse_empty_text_returns_empty() {
    let actions = parse_compression_response("").unwrap();
    assert!(actions.is_empty());
}

#[test]
fn parse_unclosed_act_skipped() {
    let text = r#"<act><reason>r</reason><method>保持</method><completionId>[m1]</completionId>"#;
    let actions = parse_compression_response(text).unwrap();
    assert!(actions.is_empty());
}

#[test]
fn apply_combination_keep_hide_replace() {
    let messages = vec![
        Message::new("m1", Role::User, "hello", 1),
        Message::new("m2", Role::Assistant, "hi", 2),
        Message::new("m3", Role::User, "bye", 3),
        Message::new("m4", Role::Assistant, "goodbye", 4),
    ];
    let state = CompressionState {
        actions: vec![
            CompressionAction::Keep { reason: "r".into(), message_ids: vec!["m1".into()] },
            CompressionAction::Hide { reason: "r".into(), message_ids: vec!["m3".into()] },
            CompressionAction::Replace {
                reason: "r".into(),
                message_ids: vec!["m4".into()],
                new_content: "短".into(),
            },
        ],
        updated_at: 0,
    };
    let result = apply_compression(&messages, &state);
    assert_eq!(result.len(), 3);
    assert_eq!(result[0].id, "m1");
    assert_eq!(result[0].content, "hello");
    assert_eq!(result[1].id, "m2");
    assert_eq!(result[1].content, "hi");
    assert_eq!(result[2].id, "m4");
    assert_eq!(result[2].content, "短");
    assert_eq!(result[2].role, Role::Assistant);
    assert_eq!(result[2].timestamp, 4);
}

#[test]
fn apply_later_action_wins() {
    let messages = vec![Message::new("m1", Role::User, "original", 1)];
    let state = CompressionState {
        actions: vec![
            CompressionAction::Keep { reason: "r".into(), message_ids: vec!["m1".into()] },
            CompressionAction::Hide { reason: "r".into(), message_ids: vec!["m1".into()] },
        ],
        updated_at: 0,
    };
    let result = apply_compression(&messages, &state);
    assert_eq!(result.len(), 0);

    let state2 = CompressionState {
        actions: vec![
            CompressionAction::Hide { reason: "r".into(), message_ids: vec!["m1".into()] },
            CompressionAction::Replace {
                reason: "r".into(),
                message_ids: vec!["m1".into()],
                new_content: "替换后".into(),
            },
        ],
        updated_at: 0,
    };
    let result2 = apply_compression(&messages, &state2);
    assert_eq!(result2.len(), 1);
    assert_eq!(result2[0].content, "替换后");
}

#[test]
fn apply_no_actions_keeps_all() {
    let messages = vec![
        Message::new("m1", Role::User, "a", 1),
        Message::new("m2", Role::Assistant, "b", 2),
    ];
    let state = CompressionState::default();
    let result = apply_compression(&messages, &state);
    assert_eq!(result.len(), 2);
    assert_eq!(result[0].content, "a");
    assert_eq!(result[1].content, "b");
}

#[test]
fn apply_untouched_messages_kept() {
    let messages = vec![
        Message::new("m1", Role::User, "a", 1),
        Message::new("m2", Role::Assistant, "b", 2),
        Message::new("m3", Role::User, "c", 3),
    ];
    let state = CompressionState {
        actions: vec![CompressionAction::Hide { reason: "r".into(), message_ids: vec!["m2".into()] }],
        updated_at: 0,
    };
    let result = apply_compression(&messages, &state);
    assert_eq!(result.len(), 2);
    assert_eq!(result[0].id, "m1");
    assert_eq!(result[1].id, "m3");
}

#[test]
fn apply_replace_preserves_attachments() {
    let mut m = Message::new("m1", Role::Assistant, "long content", 1);
    m.attachments.push(Attachment {
        id: "a1".into(),
        kind: AttachmentKind::Image,
        path: "img.png".into(),
        name: "img.png".into(),
        mime_type: "image/png".into(),
        size: 100,
    });
    let state = CompressionState {
        actions: vec![CompressionAction::Replace {
            reason: "r".into(),
            message_ids: vec!["m1".into()],
            new_content: "短".into(),
        }],
        updated_at: 0,
    };
    let result = apply_compression(&[m], &state);
    assert_eq!(result.len(), 1);
    assert_eq!(result[0].content, "短");
    assert_eq!(result[0].attachments.len(), 1);
    assert_eq!(result[0].attachments[0].id, "a1");
}

#[test]
fn build_prompt_includes_ids_and_roles() {
    let messages = vec![
        Message::new("id1", Role::User, "你好", 1),
        Message::new("id2", Role::Assistant, "你好啊", 2),
    ];
    let prompt = build_compression_prompt(&messages);
    assert!(prompt.contains("[id:id1]"));
    assert!(prompt.contains("[id:id2]"));
    assert!(prompt.contains("[用户]"));
    assert!(prompt.contains("[助手]"));
    assert!(prompt.contains("你好"));
}

#[test]
fn build_prompt_marks_current_question() {
    let messages = vec![
        Message::new("id1", Role::User, "第一问", 1),
        Message::new("id1b", Role::Assistant, "答1", 2),
        Message::new("id2", Role::User, "第二问", 3),
    ];
    let prompt = build_compression_prompt(&messages);
    assert!(prompt.contains("(当前问题，无需压缩)"));
}

#[test]
fn parse_of_whole_blocks_then_more_is_the_concatenation() {
    let a = "<act><reason>旧</reason><method>隐藏</method><completionId>[m1, m2]</completionId></act>\
             <act><reason>坏</reason><method>删除</method><completionId>[m3]</completionId></act>";
    let b = "说明 <act><reason>留</reason><method>保持</method><completionId>m4</completionId></act> <act>未闭合";
    let pa = parse_compression_response(a).unwrap();
    let pb = parse_compression_response(b).unwrap();
    let joined = parse_compression_response(&format!("{a}{b}")).unwrap();
    assert_eq!(pa.len(), 1);
    assert_eq!(pb.len(), 1);
    let mut both = pa.clone();
    both.extend(pb);
    assert_eq!(joined, both);
}
