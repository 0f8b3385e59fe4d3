use zenith::asset::AssetKind;
use zenith::inline::{parse_inline_markdown, BOLD_WEIGHT};
use zenith::markdown::{parse_block_markdown, ListKind, MdBlock};
use zenith::token::{GradientKind, TokenType};

#[test]
fn asset_kind_round_trips() {
    for s in ["image", "svg", "font", "video"] {
        assert_eq!(AssetKind::from_kind_str(s).kind_str(), s);
    }
    assert_eq!(AssetKind::from_kind_str("font"), AssetKind::Font);
    assert_eq!(AssetKind::from_kind_str("Image"), AssetKind::Unknown("Image".to_owned()));
}

#[test]
fn token_type_names() {
    assert_eq!(TokenType::from_type_name("fontFamily"), TokenType::FontFamily);
    assert_eq!(TokenType::from_type_name("shadow"), TokenType::Shadow);
    assert_eq!(TokenType::from_type_name("fontfamily"), TokenType::Unknown("fontfamily".to_owned()));
    assert_eq!(GradientKind::default(), GradientKind::Linear);
}

#[test]
fn inline_bold_span() {
    let chars: Vec<char> = "a **b** c".chars().collect();
    let spans = parse_inline_markdown(&chars);
    let texts: Vec<&str> = spans.iter().map(|s| s.text.as_str()).collect();
    assert_eq!(texts, vec!["a ", "b", " c"]);
    assert_eq!(spans[1].font_weight, Some(BOLD_WEIGHT));
    assert_eq!(spans[0].font_weight, None);
}

#[test]
fn inline_unclosed_or_empty_bold_is_plain() {
    for text in ["****", "x **y"] {
        let chars: Vec<char> = text.chars().collect();
        let spans = parse_inline_markdown(&chars);
        assert!(spans.iter().all(|s| s.font_weight.is_none()));
        let joined: String = spans.iter().map(|s| s.text.as_str()).collect();
        assert_eq!(joined, text);
    }
}

#[test]
fn whitespace_only_documents_have_no_blocks() {
    assert!(parse_block_markdown(" \t\r\n \u{a0}\n\u{2003}").is_empty());
}

#[test]
fn heading_levels_stay_within_range() {
    let blocks = parse_block_markdown("###### six\n####### seven\n# one");
    let levels: Vec<u8> = blocks
        .iter()
        .filter_map(|b| match b {
            MdBlock::Heading { level, .. } => Some(*level),
            _ => None,
        })
        .collect();
    assert_eq!(levels, vec![6, 1]);
}

#[test]
fn ordinals_only_on_ordered_items() {
    let blocks = parse_block_markdown("- a\n12. b\n99999999999. c");
    match &blocks[0] {
        MdBlock::ListItem { kind, ordinal, .. } => {
            assert_eq!(*kind, ListKind::Unordered);
            assert_eq!(*ordinal, None);
        },
        other => panic!("unexpected {other:?}"),
    }
    match &blocks[1] {
        MdBlock::ListItem { kind, ordinal, .. } => {
            assert_eq!(*kind, ListKind::Ordered);
            assert_eq!(*ordinal, Some(12));
        },
        other => panic!("unexpected {other:?}"),
    }
    assert!(matches!(&blocks[2], MdBlock::Paragraph { .. }));
}

#[test]
fn crlf_lines_and_blockquote_ending_on_plain_line() {
    let blocks = parse_block_markdown("> q1\r\n> q2\r\nplain\r\n");
    assert_eq!(blocks.len(), 2);
    assert!(matches!(&blocks[0], MdBlock::Blockquote { .. }));
    assert!(matches!(&blocks[1], MdBlock::Paragraph { .. }));
}
