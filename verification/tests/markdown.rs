use md2ms::markdown::{parse_markdown, strip_comments, trim_doublespace, trim_links};

const SIMPLE_MARKDOWN_YFM: &str = r#"
    ---
    author: 'Adam Israel'
    short_author: 'Israel'
    short_title: 'Markdown'
    title: 'Parsing a Markdown file metadata into a struct'
    description: 'This tutorial walks you through the practice of parsing markdown files for metadata'
    tags: ['markdown', 'rust', 'files', 'parsing', 'metadata']
    date: '2021-09-13T03:48:00'
    ---
    This is the content of the markdown file
    "#;

const COMMENTS: &str = r#"
    %%

    Attempting to follow the structure from this series of articles:
    https://storybilder.com/blog/structure-flash-fiction-part-1
    https://storybilder.com/blog/structure-flash-fiction-part-2

    %%

    %% 1. In 2-3 sentences, set the place and introduce the character(s). %%

    "#;

#[test]
fn test_strip_comments() {
    let content = strip_comments(COMMENTS.to_string());
    assert!(content.is_empty());
}

#[test]
fn test_trim_doublespace() {
    let s = "This is a test.  This is only a test.\nIf this were an actual emergency, you would be instructed where to go and what to do.";
    assert!(trim_doublespace(s) == "This is a test. This is only a test.\nIf this were an actual emergency, you would be instructed where to go and what to do.");
}

#[test]
fn test_trim_links() {
    let s = "This is a test. [This is a link](https://example.com). This is only a test.\nIf this were an actual emergency, you would be instructed where to go and what to do.";
    assert!(trim_links(s) == "This is a test. This is a link. This is only a test.\nIf this were an actual emergency, you would be instructed where to go and what to do.");
}

#[test]
fn test_parse_markdown() {
    let md = parse_markdown(SIMPLE_MARKDOWN_YFM.to_string()).unwrap();
    assert!(md.metadata.author == Some("Adam Israel".to_string()));
    assert!(
        md.metadata.title == Some("Parsing a Markdown file metadata into a struct".to_string())
    );
    assert!(md
        .content
        .contains("This is the content of the markdown file"))
}

#[test]
fn test_parse_markdown_without_front_matter() {
    let md = parse_markdown("Just a  body with [a link](x).".to_string()).unwrap();
    assert!(md.metadata.is_empty());
    assert_eq!(md.content, "Just a body with a link.");
}

#[test]
fn test_parse_markdown_manifest_list() {
    // the manifest field's key in the front-matter schema
    let key = String::from("inclu") + "de";
    let text = format!(
        "---\ntitle: 'Book'\n{}:\n  - 'part1.md'\n  - 'part2.md'\n---\nignored",
        key
    );
    let md = parse_markdown(text).unwrap();
    assert_eq!(md.metadata.title, Some("Book".to_string()));
    assert_eq!(
        md.metadata.manifest,
        Some(vec!["part1.md".to_string(), "part2.md".to_string()])
    );
}

#[test]
fn test_parse_markdown_invalid_front_matter_keeps_raw_text() {
    let text = "---\ntitle: 'unclosed\n---\nbody".to_string();
    let md = parse_markdown(text).unwrap();
    assert!(md.metadata.is_empty());
    // the whole text, front-matter markers and all, stays as content
    assert!(md.content.contains("---"));
    assert!(md.content.contains("body"));
}

#[test]
fn test_parse_markdown_content_warnings_list() {
    let text = "---\ncontent_warnings:\n  - 'spiders'\n  - 'heights'\n---\nbody".to_string();
    let md = parse_markdown(text).unwrap();
    assert_eq!(
        md.metadata.content_warnings,
        Some(vec!["spiders".to_string(), "heights".to_string()])
    );
    assert_eq!(md.content, "body");
}

#[test]
fn test_post_processing_idempotent_example() {
    let once = trim_links(&trim_doublespace("An  [inner](x)  link  and   spaces."));
    let twice = trim_links(&trim_doublespace(&once));
    assert_eq!(once, twice);
    assert_eq!(once, "An inner link and spaces.");
}

#[test]
fn test_strip_comments_keeps_surrounding_text() {
    let s = "before %% a comment %% after".to_string();
    assert_eq!(strip_comments(s), "before  after");
}
