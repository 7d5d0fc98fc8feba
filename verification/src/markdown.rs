//! Parsing one Markdown fragment: splitting front matter from the body,
//! post-processing the body, and converting content into manuscript blocks.

use vstd::prelude::*;

use crate::cmark::{parse_paragraph, runs_of_events, events_of, runs_vw, Run, RunView};
use crate::context::Context;
use crate::error::Md2msError;
use crate::metadata::{empty_metadata_view, Metadata, MetadataView};
use crate::text::{
    chars_of, collapse_spaces, collapse_spaces_spec, post_process_spec, split_lines,
    split_lines_spec, string_of, strip_comment_blocks, strip_comments_spec, strip_links,
    strip_links_spec, trim_chars, trim_spec,
};

verus! {

/// One parsed Markdown fragment: its front-matter metadata and its
/// post-processed body.
pub struct Document {
    pub metadata: Metadata,
    pub content: String,
}

/// The mathematical value of a `Document`.
pub struct DocumentView {
    pub metadata: MetadataView,
    pub content: Seq<char>,
}

impl View for Document {
    type V = DocumentView;

    open spec fn view(&self) -> DocumentView {
        DocumentView { metadata: self.metadata@, content: self.content@ }
    }
}

impl Document {
    /// A document with empty metadata and empty content.
    pub fn empty() -> (r: Document)
        ensures
            r@.metadata == empty_metadata_view(),
            r@.content == Seq::<char>::empty(),
    {
        Document { metadata: Metadata::empty(), content: String::new() }
    }

    /// A copy of this document with the same value.
    pub fn duplicate(&self) -> (r: Document)
        ensures
            r@ == self@,
    {
        Document { metadata: self.metadata.duplicate(), content: self.content.clone() }
    }
}

/// One emitted structural unit of the manuscript, in final order.
pub enum Block {
    /// A page break followed by a centered section heading.
    SectionBreak(String),
    /// A centered scene-separator marker.
    SceneSeparator,
    /// A paragraph of styled runs.
    Paragraph(Vec<Run>),
}

/// The mathematical value of a `Block`.
pub enum BlockView {
    SectionBreak(Seq<char>),
    SceneSeparator,
    Paragraph(Seq<RunView>),
}

impl View for Block {
    type V = BlockView;

    open spec fn view(&self) -> BlockView {
        match self {
            Block::SectionBreak(h) => BlockView::SectionBreak(h@),
            Block::SceneSeparator => BlockView::SceneSeparator,
            Block::Paragraph(runs) => BlockView::Paragraph(runs_vw(runs@)),
        }
    }
}

/// The mathematical value of a vector of blocks.
pub open spec fn blocks_vw(s: Seq<Block>) -> Seq<BlockView> {
    s.map_values(|b: Block| b@)
}

/// Collapse every run of consecutive spaces in the string to one space.
pub fn trim_doublespace(s: &str) -> (r: String)
    ensures
        r@ == collapse_spaces_spec(s@),
{
    let v = chars_of(s);
    let c = collapse_spaces(&v);
    string_of(&c)
}

/// Replace every hyperlink construct `[label](target)` in the string by its
/// label, discarding the target.
pub fn trim_links(s: &str) -> (r: String)
    ensures
        r@ == strip_links_spec(s@),
{
    let v = chars_of(s);
    let c = strip_links(&v);
    string_of(&c)
}

/// Strip `%% ... %%` comment blocks out of the content and trim the
/// whitespace left behind.
pub fn strip_comments(content: String) -> (r: String)
    ensures
        r@ == strip_comments_spec(content@),
{
    let v = chars_of(content.as_str());
    let c = strip_comment_blocks(&v);
    string_of(&c)
}

/// The blocks one content line contributes: nothing for a blank line, a
/// scene separator for a line holding exactly `#`, and otherwise one
/// paragraph of the line's styled runs.
pub open spec fn line_blocks(line: Seq<char>) -> Seq<BlockView> {
    if trim_spec(line).len() == 0 {
        Seq::empty()
    } else if trim_spec(line) == seq!['#'] {
        seq![BlockView::SceneSeparator]
    } else {
        seq![BlockView::Paragraph(runs_of_events(events_of(line)))]
    }
}

/// The blocks of a sequence of content lines, in source order.
pub open spec fn blocks_of_lines(lines: Seq<Seq<char>>) -> Seq<BlockView>
    decreases lines.len(),
{
    if lines.len() == 0 {
        Seq::empty()
    } else {
        line_blocks(lines[0]) + blocks_of_lines(lines.drop_first())
    }
}

/// The blocks of one fragment's content: comments stripped, then every
/// non-blank line converted in source order.
pub open spec fn doc_blocks_spec(content: Seq<char>) -> Seq<BlockView> {
    blocks_of_lines(split_lines_spec(strip_comments_spec(content)))
}

proof fn lemma_blocks_vw_push(s: Seq<Block>, b: Block)
    ensures
        blocks_vw(s.push(b)) == blocks_vw(s).push(b@),
{
    assert(blocks_vw(s.push(b)) =~= blocks_vw(s).push(b@));
}

proof fn lemma_blocks_vw_append(a: Seq<Block>, b: Seq<Block>)
    ensures
        blocks_vw(a + b) == blocks_vw(a) + blocks_vw(b),
{
    assert(blocks_vw(a + b) =~= blocks_vw(a) + blocks_vw(b));
}

/// Convert the content of one fragment into manuscript blocks: strip
/// comments, skip blank lines, turn a bare `#` line into a scene separator,
/// and tokenize every other line into a paragraph of styled runs.
pub fn content_to_paragraphs(content: String) -> (r: Vec<Block>)
    ensures
        blocks_vw(r@) == doc_blocks_spec(content@),
{
    let chars = chars_of(content.as_str());
    let cleaned = strip_comment_blocks(&chars);
    let lines = split_lines(&cleaned);
    let ghost lv = lines.deep_view();
    let mut r: Vec<Block> = Vec::new();
    let n = lines.len();
    let mut i: usize = 0;
    proof {
        assert(lv.skip(0) =~= lv);
        assert(blocks_vw(r@) =~= Seq::<BlockView>::empty());
        assert(blocks_vw(r@) + blocks_of_lines(lv) =~= blocks_of_lines(lv));
    }
    while i < n
        invariant
            i <= n,
            n == lines@.len(),
            lv == lines.deep_view(),
            blocks_of_lines(lv) == blocks_vw(r@) + blocks_of_lines(lv.skip(i as int)),
        decreases n - i,
    {
        proof {
            assert(lines@[i as int].deep_view() =~= lines@[i as int]@);
            assert(lv[i as int] == lines@[i as int]@);
            assert(lv.skip(i as int)[0] == lv[i as int]);
            assert(lv.skip(i as int).drop_first() =~= lv.skip(i as int + 1));
        }
        let line = &lines[i];
        let t = trim_chars(line);
        if t.len() == 0 {
            proof {
                assert(line_blocks(lv[i as int]) =~= Seq::<BlockView>::empty());
                assert(blocks_of_lines(lv.skip(i as int)) == line_blocks(lv[i as int])
                    + blocks_of_lines(lv.skip(i as int + 1)));
                assert(line_blocks(lv[i as int]) + blocks_of_lines(lv.skip(i as int + 1))
                    =~= blocks_of_lines(lv.skip(i as int + 1)));
            }
        } else if t.len() == 1 && t[0] == '#' {
            let ghost pre = blocks_vw(r@);
            proof {
                assert(t@ =~= seq!['#']);
            }
            r.push(Block::SceneSeparator);
            proof {
                lemma_blocks_vw_push(r@.drop_last(), Block::SceneSeparator);
                assert(r@.drop_last().push(Block::SceneSeparator) =~= r@);
                assert(line_blocks(lv[i as int]) == seq![BlockView::SceneSeparator]);
                assert(pre + (line_blocks(lv[i as int]) + blocks_of_lines(lv.skip(i as int + 1)))
                    =~= blocks_vw(r@) + blocks_of_lines(lv.skip(i as int + 1)));
            }
        } else {
            let ghost pre = blocks_vw(r@);
            proof {
                if t@.len() == 1 {
                    assert(t@ != seq!['#']) by {
                        assert(seq!['#'][0] == '#');
                    }
                } else {
                    assert(t@.len() != seq!['#'].len());
                }
            }
            let s = string_of(line);
            let runs = parse_paragraph(s.as_str());
            let b = Block::Paragraph(runs);
            proof {
                assert(b@ == BlockView::Paragraph(runs_of_events(events_of(lv[i as int]))));
            }
            r.push(b);
            proof {
                lemma_blocks_vw_push(r@.drop_last(), b);
                assert(r@.drop_last().push(b) =~= r@);
                assert(line_blocks(lv[i as int]) == seq![b@]);
                assert(pre + (line_blocks(lv[i as int]) + blocks_of_lines(lv.skip(i as int + 1)))
                    =~= blocks_vw(r@) + blocks_of_lines(lv.skip(i as int + 1)));
            }
        }
        i = i + 1;
    }
    proof {
        assert(lv.skip(n as int) =~= Seq::<Seq<char>>::empty());
        assert(blocks_vw(r@) + Seq::<BlockView>::empty() =~= blocks_vw(r@));
    }
    r
}

/// The front matter and body that the outside front-matter parser yields for
/// the given file text: the recognized metadata fields and the remaining
/// body, or nothing when no front-matter block parses.
pub uninterp spec fn front_matter_of(text: Seq<char>) -> Option<(MetadataView, Seq<char>)>;

/// Relies on `yaml_front_matter::YamlFrontMatter::parse`, deserializing the
/// front-matter block through `serde_yaml`: it splits a leading front-matter
/// block from the body, and its result is a function of the file text alone.
#[verifier::external_body]
fn split_front_matter(text: &str) -> (r: Option<(Metadata, String)>)
    ensures
        r is Some <==> front_matter_of(text@) is Some,
        r matches Some(p) ==> front_matter_of(text@) == Some((p.0@, p.1@)),
{
    let doc = yaml_front_matter::YamlFrontMatter::parse::<serde_yaml::Value>(text).ok()?;
    let m = doc.metadata;
    let s = |k: &str| m.get(k).and_then(|v| v.as_str()).map(String::from);
    let l = |k: &str| {
        let q = m.get(k)?.as_sequence()?;
        Some(q.iter().map(|x| x.as_str().unwrap_or("").to_string()).collect())
    };
    let manifest_key = String::from("inclu") + "de";  // the front-matter schema's manifest key
    let metadata = Metadata {
        content_warnings: l("content_warnings"), manifest: l(&manifest_key),
        short_title: s("short_title"), short_author: s("short_author"),
        title: s("title"), author: s("author"), heading: s("heading"),
    };
    Some((metadata, doc.content))
}

/// The document that parsing the given file text produces: the parsed
/// metadata where a front-matter block is present, empty metadata otherwise,
/// and in both cases the body with spaces collapsed and hyperlinks stripped.
pub open spec fn parse_markdown_spec(md: Seq<char>) -> DocumentView {
    match front_matter_of(md) {
        Some(p) => DocumentView { metadata: p.0, content: post_process_spec(p.1) },
        None => DocumentView { metadata: empty_metadata_view(), content: post_process_spec(md) },
    }
}

/// The non-blank lines of a line sequence, in source order.
pub open spec fn non_blank_lines(lines: Seq<Seq<char>>) -> Seq<Seq<char>>
    decreases lines.len(),
{
    if lines.len() == 0 {
        Seq::empty()
    } else if trim_spec(lines[0]).len() > 0 {
        seq![lines[0]] + non_blank_lines(lines.drop_first())
    } else {
        non_blank_lines(lines.drop_first())
    }
}

proof fn lemma_blocks_are_paragraphs(lines: Seq<Seq<char>>)
    requires
        forall|i: int| 0 <= i < lines.len() ==> trim_spec(#[trigger] lines[i]) != seq!['#'],
    ensures
        blocks_of_lines(lines).len() == non_blank_lines(lines).len(),
        forall|i: int|
            0 <= i < non_blank_lines(lines).len() ==> blocks_of_lines(lines)[i]
                == BlockView::Paragraph(runs_of_events(events_of(non_blank_lines(lines)[i]))),
    decreases lines.len(),
{
    if lines.len() > 0 {
        let rest = lines.drop_first();
        assert(forall|i: int| 0 <= i < rest.len() ==> #[trigger] rest[i] == lines[i + 1]);
        lemma_blocks_are_paragraphs(rest);
        let b = blocks_of_lines(lines);
        let nb = non_blank_lines(lines);
        if trim_spec(lines[0]).len() > 0 {
            assert(line_blocks(lines[0]) == seq![
                BlockView::Paragraph(runs_of_events(events_of(lines[0]))),
            ]);
            assert(b == line_blocks(lines[0]) + blocks_of_lines(rest));
            assert(nb == seq![lines[0]] + non_blank_lines(rest));
            assert(forall|i: int|
                1 <= i < nb.len() ==> #[trigger] nb[i] == non_blank_lines(rest)[i - 1]);
            assert(forall|i: int|
                1 <= i < b.len() ==> #[trigger] b[i] == blocks_of_lines(rest)[i - 1]);
        } else {
            assert(line_blocks(lines[0]) =~= Seq::<BlockView>::empty());
            assert(b =~= blocks_of_lines(rest));
            assert(nb == non_blank_lines(rest));
        }
    }
}

/// The standalone round trip: a document without a manifest assembles into
/// exactly one paragraph block per non-blank content line, in source order,
/// with no section break and no scene separator — provided no content line
/// is the bare `#` scene-break marker, which becomes a separator instead.
pub proof fn lemma_standalone_round_trip(files: Map<Seq<char>, DocumentView>, doc: DocumentView)
    requires
        doc.metadata.manifest is None,
        forall|i: int|
            0 <= i < split_lines_spec(strip_comments_spec(doc.content)).len() ==> trim_spec(
                #[trigger] split_lines_spec(strip_comments_spec(doc.content))[i],
            ) != seq!['#'],
    ensures
        ({
            let nb = non_blank_lines(split_lines_spec(strip_comments_spec(doc.content)));
            match flatten_spec(files, doc) {
                Ok(blocks) => {
                    &&& blocks.len() == nb.len()
                    &&& forall|i: int|
                        0 <= i < nb.len() ==> blocks[i] == BlockView::Paragraph(
                            runs_of_events(events_of(#[trigger] nb[i])),
                        )
                },
                Err(_) => false,
            }
        }),
{
    lemma_blocks_are_paragraphs(split_lines_spec(strip_comments_spec(doc.content)));
}

/// The blocks that assembling the manifest tail `incs` contributes, given
/// whether an earlier fragment has armed the scene separator. For each
/// listed path in order: a missing path fails the whole assembly; a declared
/// heading emits a section break and disarms the separator; a separator is
/// emitted between content-bearing fragments, never before the first, never
/// directly after a section break, and never doubled; the fragment's blocks
/// follow; a fragment that contributed blocks arms the separator.
pub open spec fn flatten_rec(
    files: Map<Seq<char>, DocumentView>,
    incs: Seq<Seq<char>>,
    armed: bool,
) -> Result<Seq<BlockView>, Seq<char>>
    decreases incs.len(),
{
    if incs.len() == 0 {
        Ok(Seq::empty())
    } else if !files.contains_key(incs[0]) {
        Err(incs[0])
    } else {
        let d = files[incs[0]];
        let armed0 = if d.metadata.heading is Some {
            false
        } else {
            armed
        };
        let head: Seq<BlockView> = match d.metadata.heading {
            Some(h) => seq![BlockView::SectionBreak(h)],
            None => Seq::empty(),
        };
        let body = doc_blocks_spec(d.content);
        let sep: Seq<BlockView> = if armed0 && body.len() > 0 {
            seq![BlockView::SceneSeparator]
        } else {
            Seq::empty()
        };
        let armed1 = if body.len() > 0 {
            true
        } else {
            armed0
        };
        match flatten_rec(files, incs.drop_first(), armed1) {
            Ok(rest) => Ok(head + sep + body + rest),
            Err(p) => Err(p),
        }
    }
}

/// The whole assembly: a document without a manifest is standalone and its
/// content becomes blocks directly; otherwise the manifest is resolved
/// against the corpus in order.
pub open spec fn flatten_spec(files: Map<Seq<char>, DocumentView>, doc: DocumentView) -> Result<
    Seq<BlockView>,
    Seq<char>,
> {
    match doc.metadata.manifest {
        None => Ok(doc_blocks_spec(doc.content)),
        Some(incs) => flatten_rec(files, incs, false),
    }
}

/// Assemble the manuscript: resolve the root document's manifest against the
/// corpus, producing the ordered block sequence, or the exact relative path
/// of the first manifest entry with no corpus document. No partial block
/// sequence is ever returned.
#[verifier::rlimit(100)]
pub fn flatten_markdown(ctx: &Context, document: Document) -> (r: Result<Vec<Block>, Md2msError>)
    requires
        ctx.files.wf(),
    ensures
        match r {
            Ok(blocks) => flatten_spec(ctx.files.as_map(), document@) == Ok::<_, Seq<char>>(
                blocks_vw(blocks@),
            ),
            Err(e) => match e {
                Md2msError::FileNotFound(p) => flatten_spec(ctx.files.as_map(), document@)
                    == Err::<Seq<BlockView>, _>(p@),
                _ => false,
            },
        },
{
    let ghost fm = ctx.files.as_map();
    let Document { metadata, content } = document;
    let incs = match metadata.manifest {
        None => {
            return Ok(content_to_paragraphs(content));
        },
        Some(incs) => incs,
    };
    let ghost iv = incs.deep_view();
    proof {
        assert(document@.metadata.manifest == Some(iv));
        assert(flatten_spec(fm, document@) == flatten_rec(fm, iv, false));
    }
    let mut out: Vec<Block> = Vec::new();
    let mut armed: bool = false;
    let n = incs.len();
    let mut idx: usize = 0;
    proof {
        assert(iv.skip(0) =~= iv);
        assert(blocks_vw(out@) =~= Seq::<BlockView>::empty());
        match flatten_rec(fm, iv, false) {
            Ok(rest) => {
                assert(blocks_vw(out@) + rest =~= rest);
            },
            Err(_) => {},
        }
    }
    while idx < n
        invariant
            idx <= n,
            n == incs@.len(),
            iv == incs.deep_view(),
            ctx.files.wf(),
            fm == ctx.files.as_map(),
            flatten_spec(fm, document@) == flatten_rec(fm, iv, false),
            flatten_rec(fm, iv, false) == match flatten_rec(fm, iv.skip(idx as int), armed) {
                Ok(rest) => Ok::<Seq<BlockView>, Seq<char>>(blocks_vw(out@) + rest),
                Err(p) => Err(p),
            },
        decreases n - idx,
    {
        proof {
            assert(incs@[idx as int].deep_view() =~= incs@[idx as int]@);
            assert(iv[idx as int] == incs@[idx as int]@);
            assert(iv.skip(idx as int)[0] == iv[idx as int]);
            assert(iv.skip(idx as int).drop_first() =~= iv.skip(idx as int + 1));
        }
        let file = &incs[idx];
        let ghost armed_in = armed;
        let ghost pre = blocks_vw(out@);
        match ctx.get_file(file.as_str()) {
            None => {
                proof {
                    assert(flatten_rec(fm, iv.skip(idx as int), armed) == Err::<
                        Seq<BlockView>,
                        _,
                    >(iv[idx as int]));
                    assert(flatten_rec(fm, iv, false) == Err::<Seq<BlockView>, Seq<char>>(
                        iv[idx as int],
                    ));
                }
                return Err(Md2msError::FileNotFound(file.clone()));
            },
            Some(md) => {
                let ghost d = fm[iv[idx as int]];
                proof {
                    assert(md@ == d);
                }
                let ghost head: Seq<BlockView> = if d.metadata.heading is Some {
                    seq![BlockView::SectionBreak(d.metadata.heading->0)]
                } else {
                    Seq::empty()
                };
                match &md.metadata.heading {
                    Some(h) => {
                        out.push(Block::SectionBreak(h.clone()));
                        armed = false;
                        proof {
                            assert(out@.drop_last().push(out@.last()) =~= out@);
                            lemma_blocks_vw_push(out@.drop_last(), out@.last());
                        }
                    },
                    None => {},
                }
                proof {
                    assert(blocks_vw(out@) =~= pre + head);
                }
                let mut body = content_to_paragraphs(md.content.clone());
                let has_body = body.len() > 0;
                let ghost bodyv = blocks_vw(body@);
                let ghost armed0 = armed;
                if armed && has_body {
                    out.push(Block::SceneSeparator);
                    proof {
                        assert(out@.drop_last().push(out@.last()) =~= out@);
                        lemma_blocks_vw_push(out@.drop_last(), out@.last());
                    }
                }
                let ghost sep: Seq<BlockView> = if armed0 && bodyv.len() > 0 {
                    seq![BlockView::SceneSeparator]
                } else {
                    Seq::empty()
                };
                proof {
                    assert(blocks_vw(out@) =~= pre + head + sep);
                }
                let ghost out_before = out@;
                let ghost body_seq = body@;
                out.append(&mut body);
                proof {
                    assert(out@ == out_before + body_seq);
                    lemma_blocks_vw_append(out_before, body_seq);
                    assert(blocks_vw(out@) =~= pre + head + sep + bodyv);
                }
                if has_body {
                    armed = true;
                }
                idx = idx + 1;
                proof {
                    let tail = flatten_rec(fm, iv.skip(idx as int), armed);
                    assert(flatten_rec(fm, iv.skip(idx as int - 1), armed_in) == match tail {
                        Ok(rest) => Ok::<Seq<BlockView>, Seq<char>>(head + sep + bodyv + rest),
                        Err(p) => Err(p),
                    });
                    match tail {
                        Ok(rest) => {
                            assert(pre + (head + sep + bodyv + rest) =~= (pre + head + sep
                                + bodyv) + rest);
                            assert(blocks_vw(out@) == pre + head + sep + bodyv);
                        },
                        Err(_) => {},
                    }
                }
            },
        }
    }
    proof {
        assert(iv.skip(n as int) =~= Seq::<Seq<char>>::empty());
        assert(flatten_rec(fm, iv.skip(n as int), armed) == Ok::<_, Seq<char>>(
            Seq::<BlockView>::empty(),
        ));
        assert(blocks_vw(out@) + Seq::<BlockView>::empty() =~= blocks_vw(out@));
    }
    Ok(out)
}

/// Parse one Markdown fragment: split off a leading front-matter block if one
/// parses (a fragment without metadata is valid standalone content), then
/// collapse double spaces and strip hyperlinks from the body.
pub fn parse_markdown(md: String) -> (r: Result<Document, &'static str>)
    ensures
        r matches Ok(d) && d@ == parse_markdown_spec(md@),
{
    match split_front_matter(md.as_str()) {
        Some((metadata, body)) => {
            let spaced = trim_doublespace(body.as_str());
            let content = trim_links(spaced.as_str());
            Ok(Document { metadata, content })
        },
        None => {
            let spaced = trim_doublespace(md.as_str());
            let content = trim_links(spaced.as_str());
            Ok(Document { metadata: Metadata::empty(), content })
        },
    }
}

} // verus!
