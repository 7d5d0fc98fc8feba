use md2ms::cmark::parse_paragraph;

#[test]
fn test_basic_parsing() {
    let input = "Hello world, this is a ~~complicated~~ *very simple* example.";
    let runs = parse_paragraph(input);
    assert!(runs.len() == 5);
}

#[test]
fn test_tokenizer_styles() {
    let runs = parse_paragraph("Hello *world* and ~~gone~~.");
    assert_eq!(runs.len(), 5);

    assert_eq!(runs[0].text, "Hello ");
    assert!(!runs[0].bold && !runs[0].italic && !runs[0].strikethrough);

    assert_eq!(runs[1].text, "world");
    assert!(runs[1].italic && !runs[1].bold && !runs[1].strikethrough);

    assert_eq!(runs[2].text, " and ");
    assert!(!runs[2].bold && !runs[2].italic && !runs[2].strikethrough);

    assert_eq!(runs[3].text, "gone");
    assert!(runs[3].strikethrough && !runs[3].bold && !runs[3].italic);

    assert_eq!(runs[4].text, ".");
    assert!(!runs[4].bold && !runs[4].italic && !runs[4].strikethrough);

    for run in &runs {
        let styles = (run.bold as u8) + (run.italic as u8) + (run.strikethrough as u8);
        assert!(styles <= 1);
    }
}

#[test]
fn test_tokenizer_strong() {
    let runs = parse_paragraph("a **b** c");
    assert_eq!(runs.len(), 3);
    assert_eq!(runs[0].text, "a ");
    assert_eq!(runs[1].text, "b");
    assert!(runs[1].bold);
    assert_eq!(runs[2].text, " c");
}

#[test]
fn test_tokenizer_empty_line() {
    let runs = parse_paragraph("");
    assert_eq!(runs.len(), 0);
}

#[test]
fn test_tokenizer_plain_line() {
    let runs = parse_paragraph("No styling here.");
    assert_eq!(runs.len(), 1);
    assert_eq!(runs[0].text, "No styling here.");
    assert!(!runs[0].bold && !runs[0].italic && !runs[0].strikethrough);
}
