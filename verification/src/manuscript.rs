//! The compile-side decisions of one run: choosing the root document that
//! carries the manuscript's metadata, counting the words of the assembled
//! blocks, and building the display strings and output file name.

use vstd::prelude::*;
use vstd::string::StringExecFns;

use crate::cmark::RunView;
use crate::context::{Context, Corpus};
use crate::error::Md2msError;
use crate::markdown::{
    blocks_vw, flatten_markdown, flatten_spec, Block, BlockView, Document, DocumentView,
};
use crate::metadata::empty_metadata_view;
use crate::text::{chars_of, string_of};

verus! {

/// A document with empty metadata and no content.
pub open spec fn empty_document_view() -> DocumentView {
    DocumentView { metadata: empty_metadata_view(), content: Seq::empty() }
}

/// Scanning the corpus entries in loader order for manuscript metadata,
/// having collected `acc` so far: a fragment with non-empty metadata becomes
/// the candidate root; a second such fragment, met after the candidate
/// already carries both metadata and content, is a conflict and selection
/// fails.
pub open spec fn select_root_rec(
    entries: Seq<(Seq<char>, DocumentView)>,
    acc: DocumentView,
) -> Option<DocumentView>
    decreases entries.len(),
{
    if entries.len() == 0 {
        Some(acc)
    } else {
        let d = entries[0].1;
        if !d.metadata.is_empty_spec() {
            if !acc.metadata.is_empty_spec() && acc.content.len() > 0 {
                None
            } else {
                select_root_rec(entries.drop_first(), d)
            }
        } else {
            select_root_rec(entries.drop_first(), acc)
        }
    }
}

/// The root document of a compilation: a fragment registered as
/// `metadata.md` supplies the manuscript metadata (with no content of its
/// own); otherwise the corpus is scanned for a fragment with embedded
/// metadata, and two such fragments are a conflict.
pub open spec fn select_root_spec(
    entries: Seq<(Seq<char>, DocumentView)>,
    m: Map<Seq<char>, DocumentView>,
) -> Option<DocumentView> {
    if m.contains_key("metadata.md"@) {
        Some(DocumentView { metadata: m["metadata.md"@].metadata, content: Seq::empty() })
    } else {
        select_root_rec(entries, empty_document_view())
    }
}

/// Choose the root document of the compilation, or nothing when two
/// fragments both carry manuscript metadata.
pub fn select_root_document(files: &Corpus) -> (r: Option<Document>)
    requires
        files.wf(),
    ensures
        match r {
            Some(d) => select_root_spec(files@, files.as_map()) == Some(d@),
            None => select_root_spec(files@, files.as_map()) is None,
        },
{
    if files.contains_key("metadata.md") {
        match files.get("metadata.md") {
            Some(d) => Some(Document { metadata: d.metadata.duplicate(), content: String::new() }),
            None => None,
        }
    } else {
        let mut acc = Document::empty();
        let n = files.len();
        let mut i: usize = 0;
        proof {
            assert(files@.skip(0) =~= files@);
        }
        while i < n
            invariant
                i <= n,
                n == files@.len(),
                files.wf(),
                !files.as_map().contains_key("metadata.md"@),
                select_root_rec(files@, empty_document_view()) == select_root_rec(
                    files@.skip(i as int),
                    acc@,
                ),
            decreases n - i,
        {
            proof {
                assert(files@.skip(i as int)[0] == files@[i as int]);
                assert(files@.skip(i as int).drop_first() =~= files@.skip(i as int + 1));
            }
            let (_, doc) = files.entry_at(i);
            if !doc.metadata.is_empty() {
                if !acc.metadata.is_empty() && !acc.content.as_str().is_empty() {
                    return None;
                }
                acc = doc.duplicate();
            }
            i = i + 1;
        }
        proof {
            assert(files@.skip(n as int) =~= Seq::<(Seq<char>, DocumentView)>::empty());
        }
        Some(acc)
    }
}

/// The concatenated text of a sequence of runs.
pub open spec fn run_texts(runs: Seq<RunView>) -> Seq<char>
    decreases runs.len(),
{
    if runs.len() == 0 {
        Seq::empty()
    } else {
        runs[0].text + run_texts(runs.drop_first())
    }
}

/// The raw text one block contributes to the word count: a section break its
/// heading, a scene separator its `#` marker, a paragraph its runs' text.
pub open spec fn block_text(b: BlockView) -> Seq<char> {
    match b {
        BlockView::SectionBreak(h) => h,
        BlockView::SceneSeparator => seq!['#'],
        BlockView::Paragraph(runs) => run_texts(runs),
    }
}

/// The concatenated raw text of the assembled blocks, in order.
pub open spec fn text_of_blocks(bs: Seq<BlockView>) -> Seq<char>
    decreases bs.len(),
{
    if bs.len() == 0 {
        Seq::empty()
    } else {
        block_text(bs[0]) + text_of_blocks(bs.drop_first())
    }
}

/// The number of words the outside word counter finds in a text.
pub uninterp spec fn word_count_of(s: Seq<char>) -> usize;

/// Relies on `words_count::count`: the word total is a function of the text
/// alone.
#[verifier::external_body]
fn count_words(s: &str) -> (r: usize)
    ensures
        r == word_count_of(s@),
{
    words_count::count(s).words
}

/// The comma-grouped decimal rendering of a number.
pub uninterp spec fn commas_of(n: usize) -> Seq<char>;

/// Relies on `thousands::Separable::separate_with_commas`: the rendering is a
/// function of the number alone.
#[verifier::external_body]
fn with_commas(n: usize) -> (r: String)
    ensures
        r@ == commas_of(n),
{
    thousands::Separable::separate_with_commas(&n)
}

/// Count the words of the assembled manuscript: every block's raw text,
/// concatenated in order, handed to the word counter.
pub fn manuscript_word_count(blocks: &Vec<Block>) -> (r: usize)
    ensures
        r == word_count_of(text_of_blocks(blocks_vw(blocks@))),
{
    let ghost bv = blocks_vw(blocks@);
    let mut text: Vec<char> = Vec::new();
    let n = blocks.len();
    let mut i: usize = 0;
    proof {
        assert(bv.skip(0) =~= bv);
        assert(text@ + text_of_blocks(bv) =~= text_of_blocks(bv));
    }
    while i < n
        invariant
            i <= n,
            n == blocks@.len(),
            bv == blocks_vw(blocks@),
            text_of_blocks(bv) == text@ + text_of_blocks(bv.skip(i as int)),
        decreases n - i,
    {
        proof {
            assert(bv.skip(i as int)[0] == bv[i as int]);
            assert(bv.skip(i as int).drop_first() =~= bv.skip(i as int + 1));
            assert(bv[i as int] == blocks@[i as int]@);
        }
        let ghost pre = text@;
        match &blocks[i] {
            Block::SectionBreak(h) => {
                let mut hc = chars_of(h.as_str());
                text.append(&mut hc);
            },
            Block::SceneSeparator => {
                text.push('#');
                proof {
                    assert(text@ =~= pre + seq!['#']);
                }
            },
            Block::Paragraph(runs) => {
                let ghost rv = bv[i as int]->Paragraph_0;
                let m = runs.len();
                let mut k: usize = 0;
                proof {
                    assert(rv.skip(0) =~= rv);
                    assert(text@ + run_texts(rv) =~= pre + run_texts(rv));
                }
                while k < m
                    invariant
                        k <= m,
                        m == runs@.len(),
                        rv == bv[i as int]->Paragraph_0,
                        bv[i as int] == blocks@[i as int]@,
                        blocks@[i as int] is Paragraph,
                        blocks@[i as int]->Paragraph_0 == *runs,
                        rv.len() == m,
                        forall|p: int| 0 <= p < m ==> rv[p] == (#[trigger] runs@[p])@,
                        pre + run_texts(rv) == text@ + run_texts(rv.skip(k as int)),
                    decreases m - k,
                {
                    proof {
                        assert(rv.skip(k as int)[0] == rv[k as int]);
                        assert(rv.skip(k as int).drop_first() =~= rv.skip(k as int + 1));
                    }
                    let mut rc = chars_of(runs[k].text.as_str());
                    text.append(&mut rc);
                    k = k + 1;
                }
                proof {
                    assert(rv.skip(m as int) =~= Seq::<RunView>::empty());
                    assert(text@ + Seq::<char>::empty() =~= text@);
                    assert(text@ =~= pre + run_texts(rv));
                }
            },
        }
        i = i + 1;
        proof {
            assert(text@ =~= pre + block_text(bv[i as int - 1]));
            assert(pre + (block_text(bv[i as int - 1]) + text_of_blocks(bv.skip(i as int))) =~= (
            pre + block_text(bv[i as int - 1])) + text_of_blocks(bv.skip(i as int)));
        }
    }
    proof {
        assert(bv.skip(n as int) =~= Seq::<BlockView>::empty());
        assert(text@ + Seq::<char>::empty() =~= text@);
    }
    let s = string_of(&text);
    count_words(s.as_str())
}

/// The style label of a compilation: classic or modern.
pub open spec fn format_label_spec(classic: bool) -> Seq<char> {
    if classic {
        "Classic"@
    } else {
        "Modern"@
    }
}

/// The style label of a compilation.
pub fn format_label(classic: bool) -> (r: String)
    ensures
        r@ == format_label_spec(classic),
{
    if classic {
        String::from_str("Classic")
    } else {
        String::from_str("Modern")
    }
}

/// The output file name of one rendered manuscript:
/// `{title} - {format} - {font}.docx`, with ` (Anonymous)` before the
/// extension for an anonymous copy.
pub fn output_docx_filename(title: &str, classic: bool, font: &str, anonymous: bool) -> (r: String)
    ensures
        r@ == title@ + " - "@ + format_label_spec(classic) + " - "@ + font@ + (if anonymous {
            " (Anonymous).docx"@
        } else {
            ".docx"@
        }),
{
    let mut r = String::from_str(title);
    r.append(" - ");
    let label = format_label(classic);
    r.append(label.as_str());
    r.append(" - ");
    r.append(font);
    if anonymous {
        r.append(" (Anonymous).docx");
        proof {
            assert(r@ =~= title@ + " - "@ + format_label_spec(classic) + " - "@ + font@
                + " (Anonymous).docx"@);
        }
    } else {
        r.append(".docx");
        proof {
            assert(r@ =~= title@ + " - "@ + format_label_spec(classic) + " - "@ + font@
                + ".docx"@);
        }
    }
    r
}

/// The running-header text: the short title, and for an identifying copy the
/// short author before it, each followed by a slash; the renderer appends
/// the page number.
pub fn header_text(short_author: &str, short_title: &str, anonymous: bool) -> (r: String)
    ensures
        anonymous ==> r@ == short_title@ + " / "@,
        !anonymous ==> r@ == short_author@ + " / "@ + short_title@ + " / "@,
{
    if anonymous {
        let mut r = String::from_str(short_title);
        r.append(" / ");
        r
    } else {
        let mut r = String::from_str(short_author);
        r.append(" / ");
        r.append(short_title);
        r.append(" / ");
        proof {
            assert(r@ =~= short_author@ + " / "@ + short_title@ + " / "@);
        }
        r
    }
}

/// The title-page byline of an identifying copy.
pub fn byline_text(author: &str) -> (r: String)
    ensures
        r@ == "by "@ + author@,
{
    let mut r = String::from_str("by ");
    r.append(author);
    r
}

/// The given strings joined by a comma and a space.
pub open spec fn join_comma_spec(items: Seq<Seq<char>>) -> Seq<char>
    decreases items.len(),
{
    if items.len() == 0 {
        Seq::empty()
    } else if items.len() == 1 {
        items[0]
    } else {
        items[0] + ", "@ + join_comma_spec(items.drop_first())
    }
}

/// The title-page content-warning line: `CW: ` followed by the warnings,
/// comma-separated.
pub fn content_warning_text(warnings: &Vec<String>) -> (r: String)
    ensures
        r@ == "CW: "@ + join_comma_spec(warnings.deep_view()),
{
    let ghost wv = warnings.deep_view();
    let mut r = String::from_str("CW: ");
    let n = warnings.len();
    let mut i: usize = 0;
    proof {
        assert(wv.skip(0) =~= wv);
        assert(r@ + join_comma_spec(wv) =~= "CW: "@ + join_comma_spec(wv));
    }
    while i < n
        invariant
            i <= n,
            n == warnings@.len(),
            wv == warnings.deep_view(),
            "CW: "@ + join_comma_spec(wv) == r@ + join_comma_spec(wv.skip(i as int)),
        decreases n - i,
    {
        proof {
            assert(wv.skip(i as int)[0] == wv[i as int]);
            assert(wv[i as int] == warnings@[i as int]@);
            assert(wv.skip(i as int).drop_first() =~= wv.skip(i as int + 1));
        }
        let ghost pre = r@;
        r.append(warnings[i].as_str());
        if i + 1 < n {
            r.append(", ");
            proof {
                assert(r@ =~= pre + (wv[i as int] + ", "@));
                assert(join_comma_spec(wv.skip(i as int)) == wv[i as int] + ", "@
                    + join_comma_spec(wv.skip(i as int + 1)));
                assert(pre + (wv[i as int] + ", "@ + join_comma_spec(wv.skip(i as int + 1))) =~= (
                pre + (wv[i as int] + ", "@)) + join_comma_spec(wv.skip(i as int + 1)));
            }
        } else {
            proof {
                assert(wv.skip(i as int).len() == 1);
                assert(join_comma_spec(wv.skip(i as int)) == wv[i as int]);
                assert(wv.skip(i as int + 1) =~= Seq::<Seq<char>>::empty());
                assert(pre + wv[i as int] =~= r@);
                assert(r@ + join_comma_spec(wv.skip(i as int + 1)) =~= r@);
            }
        }
        i = i + 1;
    }
    proof {
        if n == 0 {
            assert(join_comma_spec(wv) =~= Seq::<char>::empty());
            assert(r@ + Seq::<char>::empty() =~= r@);
        } else {
            assert(wv.skip(n as int) =~= Seq::<Seq<char>>::empty());
            assert(r@ + join_comma_spec(wv.skip(n as int)) =~= r@);
        }
    }
    r
}

/// The word-count line of the title page: `about {n} words`, with the
/// rounded count comma-grouped.
pub fn about_words_text(n: usize) -> (r: String)
    ensures
        r@ == "about "@ + commas_of(n) + " words"@,
{
    let mut r = String::from_str("about ");
    let c = with_commas(n);
    r.append(c.as_str());
    r.append(" words");
    proof {
        assert(r@ =~= "about "@ + commas_of(n) + " words"@);
    }
    r
}

/// Run the decision side of one compilation: pick the root document, resolve
/// its manifest into the block sequence, and count its words. Yields nothing
/// when the corpus is empty or two fragments both carry manuscript metadata,
/// and the offending path when a manifest entry is missing from the corpus.
pub fn compile_manuscript(ctx: &Context) -> (r: Result<Option<(Vec<Block>, usize)>, Md2msError>)
    requires
        ctx.files.wf(),
    ensures
        match r {
            Ok(opt) => match opt {
                Some(p) => ctx.files@.len() > 0 && match select_root_spec(
                    ctx.files@,
                    ctx.files.as_map(),
                ) {
                    Some(d) => flatten_spec(ctx.files.as_map(), d) == Ok::<_, Seq<char>>(
                        blocks_vw(p.0@),
                    ) && p.1 == word_count_of(text_of_blocks(blocks_vw(p.0@))),
                    None => false,
                },
                None => ctx.files@.len() == 0 || select_root_spec(ctx.files@, ctx.files.as_map())
                    is None,
            },
            Err(e) => match e {
                Md2msError::FileNotFound(p) => match select_root_spec(
                    ctx.files@,
                    ctx.files.as_map(),
                ) {
                    Some(d) => flatten_spec(ctx.files.as_map(), d) == Err::<Seq<BlockView>, _>(p@),
                    None => false,
                },
                _ => false,
            },
        },
{
    if ctx.files.is_empty() {
        return Ok(None);
    }
    let root = match select_root_document(&ctx.files) {
        Some(d) => d,
        None => {
            return Ok(None);
        },
    };
    match flatten_markdown(ctx, root) {
        Ok(blocks) => {
            let wc = manuscript_word_count(&blocks);
            Ok(Some((blocks, wc)))
        },
        Err(e) => Err(e),
    }
}

} // verus!
