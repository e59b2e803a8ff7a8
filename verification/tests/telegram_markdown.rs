use codex_notify::telegram_markdown::{escape_text, render, render_events, MdEvent, MdTag, MdTagEnd};

#[test]
fn renders_headings_lists_links_and_inline_styles() {
    let input =
        "# 结果\n\n- **成功**：见 [文档](https://example.com/a_b).\n- *强调*、~~删除~~和 `x_y`";

    assert_eq!(
        render(input),
        "*结果*\n\n• *成功*：见 [文档](https://example.com/a_b)\\.\n• _强调_、~删除~和 `x_y`"
    );
}

#[test]
fn renders_code_blocks_without_escaping_code_punctuation() {
    let input = "```rust\nlet x = 1; // !\nprintln!(\"`{x}`\");\n```";

    assert_eq!(
        render(input),
        "```\nlet x = 1; // !\nprintln!(\"\\`{x}\\`\");\n```"
    );
}

#[test]
fn escapes_plain_text_and_preserves_block_quotes() {
    let input = "普通：(ok) [raw] {x} #tag +a=b | c ~ d > e - f _ g . ! \\\n\n> 引用 **重点**";

    assert_eq!(
        render(input),
        "普通：\\(ok\\) \\[raw\\] \\{x\\} \\#tag \\+a\\=b \\| c \\~ d \\> e \\- f \\_ g \\. \\! \\\\\n\n>引用 *重点*"
    );
}

#[test]
fn renders_ordered_lists_tables_and_rules() {
    let input = "3. one\n4. two\n\n---\n\n| a | b |\n|---|---|\n| c | d |";
    assert_eq!(
        render(input),
        "3\\. one\n4\\. two\n\n────────\n\nab\nc │ d"
    );
}

#[test]
fn nested_strong_writes_one_marker_and_heading_suppresses_it() {
    assert_eq!(render("**a *b* c**"), "*a _b_ c*");
    assert_eq!(render("# a **b**"), "*a b*");
}

#[test]
fn escape_round_trip_example() {
    let escaped: String = escape_text(&"a.b\\c".chars().collect::<Vec<_>>()).into_iter().collect();
    assert_eq!(escaped, "a\\.b\\\\c");
}

#[test]
fn renders_event_stream_directly() {
    let events = vec![
        MdEvent::Start(MdTag::BlockQuote),
        MdEvent::Start(MdTag::Paragraph),
        MdEvent::Text("x\ny".to_string()),
        MdEvent::End(MdTagEnd::Paragraph),
        MdEvent::End(MdTagEnd::BlockQuote),
        MdEvent::Start(MdTag::Link("http://e/(1)".to_string())),
        MdEvent::Text("l".to_string()),
        MdEvent::End(MdTagEnd::Link),
    ];
    assert_eq!(render_events(&events), ">x\n>y\n\n[l](http://e/(1\\))");
}
