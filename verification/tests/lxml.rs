//! The markup parser.

use lxlake::ui::lxml::{parse_lxml, DiagnosticSeverity, LxmlDiagnostic};
use lxlake::ui::number::{count_numbers, parses_as_number};

#[test]
fn a_bad_value_without_quotes_is_pointed_at() {
    let (tree, diagnostics) = parse_lxml("<panel\n  rect =  1,2,x a=b>");
    assert_eq!(tree.attr("rect"), Some("1,2,x"));
    assert_eq!((diagnostics[0].line, diagnostics[0].column, diagnostics[0].length), (1, 2, 5));
    let place = diagnostics.iter().find(|d| d.severity == DiagnosticSeverity::Warning).unwrap();
    assert_eq!((place.line, place.column, place.length), (2, 11, 5));
}

#[test]
fn what_is_written_plainly_is_read_back() {
    let src = "<panel key=\"root\" rect=\"0,0,4,3\">你好<b>x</b><card color=\"1,2,3\"></card>y</panel>";
    let (tree, diagnostics) = parse_lxml(src);
    assert!(diagnostics.is_empty());
    assert_eq!(tree.tag, "panel");
    assert_eq!(tree.key.as_deref(), Some("root"));
    let names: Vec<&str> = tree.attrs.iter().map(|(name, _)| name.as_str()).collect();
    assert_eq!(names, ["key", "rect"]);
    let tags: Vec<&str> = tree.children.iter().map(|child| child.tag.as_str()).collect();
    assert_eq!(tags, ["#text", "b", "card", "#text"]);
    assert_eq!(tree.children[0].attr("text"), Some("你好"));
    assert_eq!(tree.children[1].children[0].attr("text"), Some("x"));
    assert_eq!(tree.children[3].attr("text"), Some("y"));
}

#[test]
fn every_component_must_be_a_number() {
    let (tree, diagnostics) = parse_lxml("<panel rect=\"1,2,3,4,x\"/>");
    assert_eq!(tree.tag, "panel");
    assert_eq!(tree.attr("rect"), Some("1,2,3,4,x"));
    assert_eq!(diagnostics.len(), 1);
    assert_eq!(diagnostics[0].severity, DiagnosticSeverity::Warning);
    assert_eq!((diagnostics[0].line, diagnostics[0].column, diagnostics[0].length), (1, 14, 9));
    assert!(parse_lxml("<panel rect=\"1, ,2,3,4\"/>").1.is_empty());
    assert_eq!(parse_lxml("<panel color=\"1,2,3,red\"/>").1.len(), 1);
}

#[test]
fn comment_is_skipped() {
    let src = "<!-- 注释 --><panel rect=\"0,0,1,1\" color=\"0.1,0.2,0.3\"/>";
    let (tree, diagnostics) = parse_lxml(src);

    assert!(diagnostics.is_empty(), "{diagnostics:?}");
    assert_eq!(tree.tag, "panel");
    assert_eq!(tree.attr("rect"), Some("0,0,1,1"));
    assert_eq!(tree.attr("color"), Some("0.1,0.2,0.3"));
}

#[test]
fn nested_and_self_closing() {
    let src =
        "<panel rect=\"0,0,400,300\"><card rect=\"1,1,2,2\"/><card rect=\"3,3,4,4\"/></panel>";
    let (tree, diagnostics) = parse_lxml(src);

    assert!(diagnostics.is_empty(), "{diagnostics:?}");
    assert_eq!(tree.tag, "panel");
    assert_eq!(tree.children.len(), 2);
    assert_eq!(tree.children[0].tag, "card");
    assert_eq!(tree.children[1].attr("rect"), Some("3,3,4,4"));
}

#[test]
fn malformed_rect_is_warning_not_error() {
    let src = "<panel rect=\"not,a,rect,here\"/>";
    let (tree, diagnostics) = parse_lxml(src);

    assert!(!diagnostics.is_empty());
    assert_eq!(diagnostics[0].severity, DiagnosticSeverity::Warning);
    assert_eq!(tree.tag, "panel");
}

#[test]
fn text_node_becomes_hash_text() {
    let src = "<label>Hello</label>";
    let (tree, _diagnostics) = parse_lxml(src);

    assert_eq!(tree.tag, "label");
    assert_eq!(tree.children.len(), 1);
    assert_eq!(tree.children[0].tag, "#text");
    assert_eq!(tree.children[0].attr("text"), Some("Hello"));
}

#[test]
fn unclosed_tag_is_error() {
    let src = "<panel>";
    let (_tree, diagnostics) = parse_lxml(src);

    assert!(diagnostics.iter().any(|diagnostic| diagnostic.severity == DiagnosticSeverity::Error));
}

#[test]
fn a_broken_node_does_not_take_down_its_siblings() {
    let src = "<panel><card rect=\"bad\"/><label>Hi</label></panel>";
    let (tree, diagnostics) = parse_lxml(src);

    assert_eq!(tree.children.len(), 2);
    assert_eq!(tree.children[1].tag, "label");
    assert_eq!(diagnostics.len(), 1);
    assert_eq!(diagnostics[0].severity, DiagnosticSeverity::Warning);
}

#[test]
fn diagnostics_carry_one_based_positions() {
    let src = "<panel\n  rect=\"x\"/>";
    let (_tree, diagnostics) = parse_lxml(src);

    assert_eq!(diagnostics.len(), 1);
    assert_eq!(diagnostics[0].line, 2);
    assert_eq!(diagnostics[0].column, 9);
    assert_eq!(diagnostics[0].length, 1);
}

#[test]
fn color_accepts_rgb_and_rgba() {
    for color in ["1,2,3", "1,2,3,4"] {
        let src = format!("<panel color=\"{color}\"/>");
        let (_tree, diagnostics) = parse_lxml(&src);
        assert!(diagnostics.is_empty(), "{color}: {diagnostics:?}");
    }
}

#[test]
fn severities_map_to_lsp_codes() {
    assert_eq!(DiagnosticSeverity::Error.lsp_code(), 1);
    assert_eq!(DiagnosticSeverity::Warning.lsp_code(), 2);
    assert_eq!(DiagnosticSeverity::Hint.lsp_code(), 4);
}

#[test]
fn a_comment_among_children_is_skipped() {
    let (tree, diagnostics) =
        parse_lxml("<panel><!-- one --><card/>text<!-- two --></panel>");
    assert!(diagnostics.is_empty(), "{diagnostics:?}");
    assert_eq!(tree.children.len(), 2);
    assert_eq!(tree.children[0].tag, "card");
    assert_eq!(tree.children[1].attr("text"), Some("text"));
}

#[test]
fn a_document_without_tags_gives_a_blank_node() {
    for src in ["", "   \n "] {
        let (tree, _diagnostics) = parse_lxml(src);
        assert_eq!(tree.tag, "");
        assert!(tree.children.is_empty());
        assert!(tree.attrs.is_empty());
    }
}

#[test]
fn rect_takes_four_numbers_only() {
    for rect in ["1,2,3", "1,2,3,4,5", "1,,2,3", ""] {
        let src = format!("<panel rect=\"{rect}\"/>");
        let (_tree, diagnostics) = parse_lxml(&src);
        assert_eq!(diagnostics.len(), 1, "{rect}");
        assert_eq!(diagnostics[0].severity, DiagnosticSeverity::Warning);
    }
    let (_tree, diagnostics) = parse_lxml("<panel rect=\" 1 , -2.5, .5e3, 4 \"/>");
    assert!(diagnostics.is_empty(), "{diagnostics:?}");
}

#[test]
fn a_diagnostic_without_position_points_nowhere() {
    let diagnostic =
        LxmlDiagnostic::without_position(DiagnosticSeverity::Hint, "unused".to_owned());
    assert_eq!((diagnostic.line, diagnostic.column, diagnostic.length), (0, 0, 0));
    assert_eq!(diagnostic.message, "unused");
}

fn letters(s: &str) -> Vec<char> {
    s.chars().collect()
}

#[test]
fn the_number_grammar_is_that_of_the_standard_library() {
    let alphabet = ['0', '7', '.', 'e', 'E', '+', '-', 'i', 'n', 'f', 'a', ' ', '_'];
    let mut words: Vec<String> = vec![String::new()];
    let mut layer: Vec<String> = vec![String::new()];
    for _ in 0..4 {
        let mut next: Vec<String> = Vec::new();
        for word in &layer {
            for c in alphabet {
                let mut longer = word.clone();
                longer.push(c);
                next.push(longer);
            }
        }
        words.extend(next.iter().cloned());
        layer = next;
    }
    for word in ["infinity", "INFINITY", "-Infinity", "+nan", "NaN", "infinit", "1e400", "0x10", "１"] {
        words.push(word.to_owned());
    }
    for word in &words {
        assert_eq!(
            parses_as_number(&letters(word)),
            word.parse::<f32>().is_ok(),
            "{word:?}"
        );
    }
}

#[test]
fn numbers_are_counted_between_commas() {
    assert_eq!(count_numbers(&letters("1,2,3")), Some(3));
    assert_eq!(count_numbers(&letters("1, ,3,")), Some(2));
    assert_eq!(count_numbers(&letters("1, x ,3")), None);
    assert_eq!(count_numbers(&letters("")), Some(0));
}
