use wikiplain::extract::{extract_text_from_nodes, Node};
use wikiplain::pipeline::{
    complexity_skip_message, detect_pageid_column, detect_text_column, detect_title_column,
    extract_plaintext, is_too_complex, timeout_skip_message,
};
use wikiplain::scrub::{clean_text, collapse_newlines, remove_image_fragments};
use wikiplain::sections::remove_empty_sections;
use wikiplain::templates::expand_common_templates;

fn text(s: &str) -> Node {
    Node::Text { value: s.to_string() }
}

#[test]
fn collapse_long_runs_to_two() {
    assert_eq!(collapse_newlines("a\n\n\n\n\nb"), "a\n\nb");
    assert_eq!(collapse_newlines("\n\n\n"), "\n\n");
    assert_eq!(collapse_newlines("a\n\nb"), "a\n\nb");
    assert_eq!(collapse_newlines("a\nb"), "a\nb");
}

#[test]
fn collapse_is_idempotent_on_examples() {
    let once = collapse_newlines("x\n\n\n\ny\n\n\n\n\n\nz");
    let twice = collapse_newlines(&once);
    assert_eq!(once, twice);
    assert_eq!(once, "x\n\ny\n\nz");
}

#[test]
fn emphasis_stripping() {
    let bold = vec![Node::Bold { raw: "'''bold'''".to_string() }];
    assert_eq!(extract_text_from_nodes(&bold, false), "bold");
    let italic = vec![Node::Italic { raw: "''italic''".to_string() }];
    assert_eq!(extract_text_from_nodes(&italic, false), "italic");
    let both = vec![Node::BoldItalic { raw: "'''''both'''''".to_string() }];
    assert_eq!(extract_text_from_nodes(&both, false), "both");
}

#[test]
fn heading_flushes_pending_paragraph() {
    let nodes = vec![text("para"), Node::Heading { nodes: vec![text("Head")] }];
    assert_eq!(extract_text_from_nodes(&nodes, false), "para\n\nHead\n\n");
}

#[test]
fn paragraph_break_flushes() {
    let nodes = vec![text("one"), Node::ParagraphBreak, text("two")];
    assert_eq!(extract_text_from_nodes(&nodes, false), "one\n\ntwo");
}

#[test]
fn list_items_are_space_joined_inline() {
    let list = Node::UnorderedList { items: vec![vec![text("a")], vec![text("b")]] };
    let nodes = vec![list, text("|")];
    assert_eq!(extract_text_from_nodes(&nodes, false), "a b |");
}

#[test]
fn lists_skipped_when_flag_set() {
    let list = Node::OrderedList { items: vec![vec![text("a")], vec![text("b")]] };
    let nodes = vec![list, text("|")];
    assert_eq!(extract_text_from_nodes(&nodes, true), "|");
}

#[test]
fn media_caption_link_is_dropped() {
    let link = Node::Link { text: vec![text("Файл: picture caption")] };
    let nodes = vec![text("a"), link, text("b")];
    assert_eq!(extract_text_from_nodes(&nodes, false), "ab");
    let ok = Node::Link { text: vec![text("label")] };
    let nodes2 = vec![text("a"), ok, text("b")];
    assert_eq!(extract_text_from_nodes(&nodes2, false), "alabelb");
}

#[test]
fn bare_url_external_link_is_dropped() {
    let bare = Node::ExternalLink { nodes: vec![text("https://example.com")] };
    assert_eq!(extract_text_from_nodes(&vec![bare], false), "");
    let labelled = Node::ExternalLink { nodes: vec![text("site")] };
    assert_eq!(extract_text_from_nodes(&vec![labelled], false), "site");
}

#[test]
fn reference_tags_are_skipped() {
    let r = Node::Tag { name: "ref".to_string(), nodes: vec![text("citation")] };
    let b = Node::Tag { name: "b".to_string(), nodes: vec![text("kept")] };
    assert_eq!(extract_text_from_nodes(&vec![r, b], false), "kept");
}

#[test]
fn opaque_kinds_contribute_nothing() {
    let nodes = vec![
        text("x"),
        Node::Template,
        Node::Table,
        Node::Image,
        Node::Category,
        Node::Comment,
        Node::MagicWord,
        Node::Redirect,
        Node::Parameter,
        Node::CharacterEntity,
        Node::StartTag,
        Node::EndTag,
        Node::HorizontalDivider,
        text("y"),
    ];
    assert_eq!(extract_text_from_nodes(&nodes, false), "xy");
}

#[test]
fn date_template_expands() {
    assert_eq!(expand_common_templates("{{СС3|18.1.1918}}"), "18 января 1918");
    assert_eq!(expand_common_templates("{{СС3|07.2.1600}}"), "07 февраля 1600");
}

#[test]
fn date_template_out_of_range_month_reproduces_number() {
    assert_eq!(expand_common_templates("{{СС3|5.13.2020}}"), "5.13.2020");
    assert_eq!(expand_common_templates("{{СС3|5.013.2020}}"), "5.13.2020");
    assert_eq!(expand_common_templates("{{СС3|1.99999999999.2}}"), "1.0.2");
}

#[test]
fn year_and_number_templates_expand() {
    assert_eq!(expand_common_templates("в {{год|1918}} г."), "в 1918 г.");
    assert_eq!(expand_common_templates("{{год|191}}"), "191");
    // five digits miss the year rule; the catch-all still keeps the value
    assert_eq!(expand_common_templates("{{год|19181}}"), "19181");
    assert_eq!(expand_common_templates("{{num|42}}"), "42");
}

#[test]
fn simple_template_keeps_value_once() {
    assert_eq!(expand_common_templates("{{lang|слово}}"), "слово");
    assert_eq!(expand_common_templates("{{a|{{b|c}}}}"), "{{a|c}}");
}

#[test]
fn clean_text_strips_braces() {
    assert_eq!(clean_text("a{{tpl|x}}b"), "ab");
    assert_eq!(clean_text("a{{x{{y}}z}}b"), "ab");
    assert_eq!(clean_text("a{b}c"), "abc");
    assert_eq!(clean_text("{{unclosed a"), "unclosed a");
}

#[test]
fn media_embeds_are_removed() {
    assert_eq!(remove_image_fragments("x[[Файл:pic.jpg|мини]]y"), "xy");
    assert_eq!(remove_image_fragments("x[[File:pic.jpg]]y"), "xy");
}

#[test]
fn image_parameter_lines_are_dropped() {
    assert_eq!(remove_image_fragments("text\n130px|мини|подпись\nmore"), "text\nmore");
    assert_eq!(remove_image_fragments("text\n150px|thumb|caption\nmore"), "text\nmore");
}

#[test]
fn fragment_lines_are_cleared() {
    assert_eq!(remove_image_fragments("a\nальт=x|мини|y\nb"), "a\n\nb");
    assert_eq!(remove_image_fragments("a\n130px|мини\nb"), "a\n\nb");
}

#[test]
fn section_pruning() {
    let ps = vec!["Intro".to_string(), "Примечания".to_string()];
    assert_eq!(remove_empty_sections(&ps), vec!["Intro".to_string()]);
    let ps2 = vec!["Примечания".to_string(), "Body".to_string()];
    assert_eq!(remove_empty_sections(&ps2), ps2);
    let ps3 = vec!["Body".to_string(), "Категория:Люди".to_string()];
    assert_eq!(remove_empty_sections(&ps3), vec!["Body".to_string()]);
    let ps4 = vec!["Ссылки".to_string(), "Источники".to_string()];
    assert_eq!(remove_empty_sections(&ps4), Vec::<String>::new());
}

#[test]
fn complexity_guard_fires_on_synthetic_input() {
    let input = format!("{}{}", "|-".repeat(60), "{{".repeat(250));
    assert!(is_too_complex(&input));
    assert_eq!(
        complexity_skip_message(),
        "[Article skipped: contains complex nested structures that cause parsing issues]"
    );
}

#[test]
fn complexity_guard_needs_both_conditions() {
    assert!(!is_too_complex(&"|-".repeat(60)));
    assert!(!is_too_complex(&"{{".repeat(250)));
    let media = format!("{}{}", "|-".repeat(60), "[[Файл:x".repeat(51));
    assert!(is_too_complex(&media));
}

#[test]
fn timeout_message_carries_budget() {
    assert_eq!(timeout_skip_message(30), "[Article skipped: parsing timeout after 30 seconds]");
    assert_eq!(timeout_skip_message(7), "[Article skipped: parsing timeout after 7 seconds]");
}

#[test]
fn detect_text_column_prefers_candidates() {
    let names = vec!["page_id".to_string(), "content".to_string(), "text".to_string()];
    assert_eq!(detect_text_column(&names), Some("text".to_string()));
    let names2 = vec!["page_id".to_string(), "content".to_string()];
    assert_eq!(detect_text_column(&names2), Some("content".to_string()));
}

#[test]
fn detect_text_column_falls_back_to_lowercase_match() {
    let names = vec!["page_id".to_string(), "MyText".to_string()];
    assert_eq!(detect_text_column(&names), Some("MyText".to_string()));
    let none = vec!["page_id".to_string(), "title".to_string()];
    assert_eq!(detect_text_column(&none), None);
}

#[test]
fn detect_id_and_title_columns() {
    let names = vec!["pageid".to_string(), "title".to_string()];
    assert_eq!(detect_pageid_column(&names), Some("pageid".to_string()));
    assert_eq!(detect_title_column(&names), Some("title".to_string()));
    let names2 = vec!["page_id".to_string(), "page_title".to_string()];
    assert_eq!(detect_pageid_column(&names2), Some("page_id".to_string()));
    assert_eq!(detect_title_column(&names2), Some("page_title".to_string()));
    assert_eq!(detect_pageid_column(&vec!["x".to_string()]), None);
    assert_eq!(detect_title_column(&vec!["x".to_string()]), None);
}

#[test]
fn full_pipeline_expands_and_prunes() {
    let nodes = vec![text("A {{год|1918}} B")];
    assert_eq!(extract_plaintext(&nodes, false), "A 1918 B");
    let with_empty_section = vec![text("Body"), Node::Heading { nodes: vec![text("Примечания")] }];
    assert_eq!(extract_plaintext(&with_empty_section, false), "Body");
    let with_content = vec![
        text("Body"),
        Node::Heading { nodes: vec![text("Примечания")] },
        text("источник один"),
    ];
    assert_eq!(extract_plaintext(&with_content, false), "Body\n\nПримечания\n\nисточник один");
}

#[test]
fn emphasis_of_empty_span_leaves_one_quote() {
    // six quotes: the five-quote pass eats five, and one survives
    let nodes = vec![Node::Bold { raw: "''''''".to_string() }];
    assert_eq!(extract_text_from_nodes(&nodes, false), "'");
}

#[test]
fn long_position_keyword_line_is_dropped() {
    assert_eq!(remove_image_fragments("a\n150px|миниатюра|подпись\nb"), "a\nb");
    assert_eq!(remove_image_fragments("a\n150px|left|x\nb"), "a\nb");
}

#[test]
fn empty_inputs_stay_empty() {
    assert_eq!(extract_text_from_nodes(&Vec::new(), false), "");
    assert_eq!(extract_plaintext(&Vec::new(), false), "");
    assert_eq!(collapse_newlines(""), "");
    assert_eq!(expand_common_templates(""), "");
    assert_eq!(clean_text(""), "");
    assert_eq!(remove_image_fragments(""), "");
    assert_eq!(remove_empty_sections(&Vec::new()), Vec::<String>::new());
}

#[test]
fn whitespace_only_pending_is_not_a_paragraph() {
    let nodes = vec![text("   "), Node::ParagraphBreak, text("body")];
    assert_eq!(extract_text_from_nodes(&nodes, false), "body");
}

#[test]
fn multibyte_text_round_trips() {
    let nodes = vec![text("абв где")];
    assert_eq!(extract_text_from_nodes(&nodes, false), "абв где");
    assert_eq!(collapse_newlines("абв"), "абв");
}
