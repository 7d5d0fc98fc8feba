//! The front-matter metadata of one Markdown fragment. Every field is
//! optional; absence is distinct from an empty value.

use vstd::prelude::*;

verus! {

/// A value-preserving copy of an optional string.
pub fn dup_opt_string(o: &Option<String>) -> (r: Option<String>)
    ensures
        r.deep_view() == o.deep_view(),
{
    match o {
        Some(s) => Some(s.clone()),
        None => None,
    }
}

/// A value-preserving copy of an optional list of strings.
pub fn dup_opt_string_vec(o: &Option<Vec<String>>) -> (r: Option<Vec<String>>)
    ensures
        r.deep_view() == o.deep_view(),
{
    match o {
        Some(v) => {
            let mut out: Vec<String> = Vec::new();
            let mut i: usize = 0;
            while i < v.len()
                invariant
                    i <= v@.len(),
                    out.deep_view() == v.deep_view().take(i as int),
                decreases v@.len() - i,
            {
                let c = v[i].clone();
                let ghost pre = out.deep_view();
                out.push(c);
                i = i + 1;
                proof {
                    assert(v.deep_view()[i - 1] == v@[i - 1].deep_view());
                    assert(out.deep_view() =~~= pre.push(v.deep_view()[i - 1]));
                    assert(out.deep_view() =~~= v.deep_view().take(i as int));
                }
            }
            proof {
                assert(v.deep_view().take(v.deep_view().len() as int) =~~= v.deep_view());
            }
            Some(out)
        },
        None => None,
    }
}

/// Metadata carried in a fragment's front-matter block.
pub struct Metadata {
    /// Content warnings to show on the title page.
    pub content_warnings: Option<Vec<String>>,
    /// The manifest: the ordered relative paths of the listed fragments.
    pub manifest: Option<Vec<String>>,
    /// The shortened title of the story, used in the manuscript header.
    pub short_title: Option<String>,
    /// The shortened name of the author, used in the manuscript header.
    pub short_author: Option<String>,
    pub title: Option<String>,
    pub author: Option<String>,
    /// The heading to use when rendering the child documents.
    pub heading: Option<String>,
}

/// The mathematical value of a `Metadata`: each field as an optional
/// character sequence (or sequence of sequences).
pub struct MetadataView {
    pub content_warnings: Option<Seq<Seq<char>>>,
    pub manifest: Option<Seq<Seq<char>>>,
    pub short_title: Option<Seq<char>>,
    pub short_author: Option<Seq<char>>,
    pub title: Option<Seq<char>>,
    pub author: Option<Seq<char>>,
    pub heading: Option<Seq<char>>,
}

impl View for Metadata {
    type V = MetadataView;

    open spec fn view(&self) -> MetadataView {
        MetadataView {
            content_warnings: self.content_warnings.deep_view(),
            manifest: self.manifest.deep_view(),
            short_title: self.short_title.deep_view(),
            short_author: self.short_author.deep_view(),
            title: self.title.deep_view(),
            author: self.author.deep_view(),
            heading: self.heading.deep_view(),
        }
    }
}

impl MetadataView {
    /// Whether every field is absent.
    pub open spec fn is_empty_spec(self) -> bool {
        self.content_warnings is None && self.manifest is None && self.short_title is None
            && self.short_author is None && self.title is None && self.author is None
            && self.heading is None
    }
}

/// The metadata value with every field absent.
pub open spec fn empty_metadata_view() -> MetadataView {
    MetadataView {
        content_warnings: None,
        manifest: None,
        short_title: None,
        short_author: None,
        title: None,
        author: None,
        heading: None,
    }
}

impl Metadata {
    /// A metadata value with every field absent.
    pub fn empty() -> (r: Metadata)
        ensures
            r@ == empty_metadata_view(),
    {
        Metadata {
            content_warnings: None,
            manifest: None,
            short_title: None,
            short_author: None,
            title: None,
            author: None,
            heading: None,
        }
    }

    /// A copy of this metadata with the same value.
    pub fn duplicate(&self) -> (r: Metadata)
        ensures
            r@ == self@,
    {
        Metadata {
            content_warnings: dup_opt_string_vec(&self.content_warnings),
            manifest: dup_opt_string_vec(&self.manifest),
            short_title: dup_opt_string(&self.short_title),
            short_author: dup_opt_string(&self.short_author),
            title: dup_opt_string(&self.title),
            author: dup_opt_string(&self.author),
            heading: dup_opt_string(&self.heading),
        }
    }

    /// Whether every field is absent. A fragment whose metadata is empty is
    /// standalone content.
    pub fn is_empty(&self) -> (r: bool)
        ensures
            r == self@.is_empty_spec(),
    {
        self.content_warnings.is_none() && self.manifest.is_none() && self.short_title.is_none()
            && self.short_author.is_none() && self.title.is_none() && self.author.is_none()
            && self.heading.is_none()
    }
}

} // verus!
