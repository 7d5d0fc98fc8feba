use md2ms::context::{Context, Corpus};
use md2ms::error::Md2msError;
use md2ms::manuscript::{
    about_words_text, byline_text, compile_manuscript, content_warning_text, format_label,
    header_text, manuscript_word_count, output_docx_filename, select_root_document,
};
use md2ms::markdown::{content_to_paragraphs, flatten_markdown, Block, Document};
use md2ms::metadata::Metadata;
use md2ms::obsidian_commander::{add_file_menu, FileMenu};
use md2ms::CompileArgs;

fn plain_meta() -> Metadata {
    Metadata {
        content_warnings: None,
        manifest: None,
        short_title: None,
        short_author: None,
        title: None,
        author: None,
        heading: None,
    }
}

fn doc(content: &str) -> Document {
    Document {
        metadata: plain_meta(),
        content: content.to_string(),
    }
}

fn heading_doc(heading: &str, content: &str) -> Document {
    let mut metadata = plain_meta();
    metadata.heading = Some(heading.to_string());
    Document {
        metadata,
        content: content.to_string(),
    }
}

fn compile_args(path: &str) -> CompileArgs {
    CompileArgs {
        filename_or_path: path.to_string(),
        output_dir: Some("out".to_string()),
        pii: None,
        word_count: None,
    }
}

fn context_with(files: Vec<(&str, Document)>) -> Context {
    let mut ctx = Context::new(&compile_args("examples/test"));
    for (name, d) in files {
        ctx.files.insert(name.to_string(), d);
    }
    ctx
}

fn root_with_manifest(paths: Vec<&str>) -> Document {
    let mut metadata = plain_meta();
    metadata.manifest = Some(paths.into_iter().map(|p| p.to_string()).collect());
    Document {
        metadata,
        content: String::new(),
    }
}

#[test]
fn test_standalone_round_trip() {
    let blocks = content_to_paragraphs("first line\n\nsecond line\nthird line\n".to_string());
    assert_eq!(blocks.len(), 3);
    let expected = ["first line", "second line", "third line"];
    for (b, want) in blocks.iter().zip(expected.iter()) {
        match b {
            Block::Paragraph(runs) => {
                assert_eq!(runs.len(), 1);
                assert_eq!(runs[0].text, *want);
            }
            _ => panic!("expected only paragraphs"),
        }
    }
}

#[test]
fn test_standalone_flatten_no_separators() {
    let ctx = context_with(vec![]);
    let blocks = flatten_markdown(&ctx, doc("one\n\ntwo\n")).unwrap();
    assert_eq!(blocks.len(), 2);
    assert!(blocks
        .iter()
        .all(|b| matches!(b, Block::Paragraph(_))));
}

#[test]
fn test_explicit_scene_marker() {
    let blocks = content_to_paragraphs("one\n#\ntwo\n".to_string());
    assert_eq!(blocks.len(), 3);
    assert!(matches!(blocks[0], Block::Paragraph(_)));
    assert!(matches!(blocks[1], Block::SceneSeparator));
    assert!(matches!(blocks[2], Block::Paragraph(_)));
}

#[test]
fn test_separator_placement() {
    let ctx = context_with(vec![
        ("a.md", doc("alpha paragraph\n")),
        ("b.md", doc("beta paragraph\n")),
        ("c.md", heading_doc("Part Two", "gamma paragraph\n")),
    ]);
    let root = root_with_manifest(vec!["a.md", "b.md", "c.md"]);
    let blocks = flatten_markdown(&ctx, root).unwrap();

    let kinds: Vec<&str> = blocks
        .iter()
        .map(|b| match b {
            Block::SectionBreak(_) => "section",
            Block::SceneSeparator => "separator",
            Block::Paragraph(_) => "paragraph",
        })
        .collect();
    assert_eq!(
        kinds,
        vec!["paragraph", "separator", "paragraph", "section", "paragraph"]
    );

    let separators = kinds.iter().filter(|k| **k == "separator").count();
    assert_eq!(separators, 1);

    match &blocks[3] {
        Block::SectionBreak(h) => assert_eq!(h, "Part Two"),
        _ => panic!("expected a section break"),
    }
}

#[test]
fn test_no_separator_before_first_fragment() {
    let ctx = context_with(vec![
        ("empty.md", doc("\n")),
        ("a.md", doc("alpha\n")),
        ("b.md", doc("beta\n")),
    ]);
    let root = root_with_manifest(vec!["empty.md", "a.md", "b.md"]);
    let blocks = flatten_markdown(&ctx, root).unwrap();
    assert!(matches!(blocks[0], Block::Paragraph(_)));
    assert!(matches!(blocks[1], Block::SceneSeparator));
    assert!(matches!(blocks[2], Block::Paragraph(_)));
    assert_eq!(blocks.len(), 3);
}

#[test]
fn test_missing_manifest_entry_fails() {
    let ctx = context_with(vec![("a.md", doc("alpha\n"))]);
    let root = root_with_manifest(vec!["a.md", "missing.md"]);
    match flatten_markdown(&ctx, root) {
        Err(Md2msError::FileNotFound(path)) => assert_eq!(path, "missing.md"),
        _ => panic!("expected the missing path to abort assembly"),
    }
}

#[test]
fn test_corpus_lookup() {
    let mut corpus = Corpus::new();
    corpus.insert("a.md".to_string(), doc("alpha"));
    corpus.insert("b.md".to_string(), doc("beta"));
    assert_eq!(corpus.len(), 2);
    assert!(!corpus.is_empty());
    assert!(corpus.contains_key("a.md"));
    assert!(!corpus.contains_key("c.md"));
    assert_eq!(corpus.get("b.md").unwrap().content, "beta");
    assert!(corpus.get("c.md").is_none());
}

#[test]
fn test_corpus_insert_replaces_existing_key() {
    let mut corpus = Corpus::new();
    corpus.insert("a.md".to_string(), doc("old"));
    corpus.insert("a.md".to_string(), doc("new"));
    assert_eq!(corpus.len(), 1);
    assert_eq!(corpus.get("a.md").unwrap().content, "new");
}

#[test]
fn test_corpus_merge() {
    let mut parent = Corpus::new();
    parent.insert("a.md".to_string(), doc("alpha"));
    let mut child = Corpus::new();
    child.insert("sub/b.md".to_string(), doc("beta"));
    child.insert("sub/c.md".to_string(), doc("gamma"));
    parent.merge(&child);
    assert_eq!(parent.len(), 3);
    assert_eq!(parent.get("sub/b.md").unwrap().content, "beta");
    assert_eq!(parent.get("sub/c.md").unwrap().content, "gamma");
    assert_eq!(parent.get("a.md").unwrap().content, "alpha");
}

#[test]
fn test_corpus_contents_independent_of_order() {
    let mut first = Corpus::new();
    first.insert("a.md".to_string(), doc("alpha"));
    first.insert("b.md".to_string(), doc("beta"));

    let mut second = Corpus::new();
    second.insert("b.md".to_string(), doc("beta"));
    second.insert("a.md".to_string(), doc("alpha"));

    for key in ["a.md", "b.md"] {
        let x = first.get(key).unwrap();
        let y = second.get(key).unwrap();
        assert_eq!(x.content, y.content);
        assert_eq!(x.metadata.is_empty(), y.metadata.is_empty());
    }
    assert_eq!(first.len(), second.len());
}

#[test]
fn test_select_root_prefers_metadata_file() {
    let mut titled = plain_meta();
    titled.title = Some("The Book".to_string());
    let ctx = context_with(vec![
        ("a.md", doc("alpha")),
        (
            "metadata.md",
            Document {
                metadata: titled,
                content: "stray".to_string(),
            },
        ),
    ]);
    let root = select_root_document(&ctx.files).unwrap();
    assert_eq!(root.metadata.title, Some("The Book".to_string()));
    assert_eq!(root.content, "");
}

#[test]
fn test_select_root_conflict() {
    let mut m1 = plain_meta();
    m1.title = Some("One".to_string());
    let mut m2 = plain_meta();
    m2.title = Some("Two".to_string());
    let ctx = context_with(vec![
        (
            "a.md",
            Document {
                metadata: m1,
                content: "first".to_string(),
            },
        ),
        (
            "b.md",
            Document {
                metadata: m2,
                content: "second".to_string(),
            },
        ),
    ]);
    assert!(select_root_document(&ctx.files).is_none());
    assert!(matches!(compile_manuscript(&ctx), Ok(None)));
}

#[test]
fn test_compile_manuscript_counts_words() {
    let mut titled = plain_meta();
    titled.title = Some("Tiny".to_string());
    let ctx = context_with(vec![(
        "story.md",
        Document {
            metadata: titled,
            content: "just five words right here\n".to_string(),
        },
    )]);
    match compile_manuscript(&ctx) {
        Ok(Some((blocks, words))) => {
            assert_eq!(blocks.len(), 1);
            assert_eq!(words, 5);
        }
        _ => panic!("expected a compiled manuscript"),
    }
}

#[test]
fn test_compile_manuscript_empty_corpus() {
    let ctx = context_with(vec![]);
    assert!(matches!(compile_manuscript(&ctx), Ok(None)));
}

#[test]
fn test_manuscript_word_count_blocks() {
    let blocks = content_to_paragraphs("three words here\n#\ntwo words\n".to_string());
    // the separator's `#` marker joins the surrounding text without spaces,
    // exactly as the renderer's raw text would
    let words = manuscript_word_count(&blocks);
    assert_eq!(words, 4);
}

#[test]
fn test_output_docx_filename() {
    assert_eq!(
        output_docx_filename("My Story", false, "Times New Roman", false),
        "My Story - Modern - Times New Roman.docx"
    );
    assert_eq!(
        output_docx_filename("My Story", true, "Courier New", true),
        "My Story - Classic - Courier New (Anonymous).docx"
    );
    assert_eq!(format_label(true), "Classic");
    assert_eq!(format_label(false), "Modern");
}

#[test]
fn test_title_page_texts() {
    assert_eq!(header_text("Israel", "Markdown", false), "Israel / Markdown / ");
    assert_eq!(header_text("Israel", "Markdown", true), "Markdown / ");
    assert_eq!(byline_text("Adam Israel"), "by Adam Israel");
    assert_eq!(
        content_warning_text(&vec!["spiders".to_string(), "heights".to_string()]),
        "CW: spiders, heights"
    );
    assert_eq!(content_warning_text(&vec![]), "CW: ");
    assert_eq!(about_words_text(18000), "about 18,000 words");
}

#[test]
fn test_context_defaults() {
    let ctx = Context::new(&compile_args("examples/short"));
    assert!(!ctx.anonymous);
    assert!(!ctx.classic);
    assert_eq!(ctx.basedir, "examples/short");
    assert_eq!(ctx.font, "Times New Roman");
    assert_eq!(ctx.font_size, 24);
    assert_eq!(ctx.output_dir, "out");
    assert!(!ctx.word_count);
    assert!(ctx.pii.is_none());
    assert!(ctx.files.is_empty());
}

#[test]
fn test_context_file_lookup() {
    let ctx = context_with(vec![("a.md", doc("alpha"))]);
    assert!(ctx.file_exists("a.md"));
    assert!(!ctx.file_exists("b.md"));
    assert_eq!(ctx.get_file("a.md").unwrap().content, "alpha");
    let path = ctx.get_file_path("a.md".to_string());
    assert_eq!(path, "examples/test/a.md");
}

#[test]
fn test_error_messages() {
    assert_eq!(
        Md2msError::FileNotFound("x.md".to_string()).message(),
        "Included file not found"
    );
    assert_eq!(Md2msError::Unknown.message(), "An unknown error occurred");
}

#[test]
fn test_add_file_menu_replaces_by_name() {
    let entry = |id: &str, name: &str| FileMenu {
        id: id.to_string(),
        icon: "lucide-book".to_string(),
        name: name.to_string(),
        mode: "desktop".to_string(),
    };
    let mut menus = vec![entry("1", "Export"), entry("2", "Count")];
    add_file_menu(&mut menus, entry("3", "Export"));
    assert_eq!(menus.len(), 2);
    assert_eq!(menus[0].name, "Count");
    assert_eq!(menus[1].name, "Export");
    assert_eq!(menus[1].id, "3");
}
