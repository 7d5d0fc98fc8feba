//! The compilation context: the parsed corpus of fragments keyed by relative
//! path, together with the formatting settings of one compilation run.

use vstd::prelude::*;
use vstd::pervasive::VecAdditionalExecFns;
use vstd::string::StringExecFns;

use crate::constants;
use crate::markdown::{Document, DocumentView};
use crate::metadata::{dup_opt_string, dup_opt_string_vec};
use crate::pii::{PiiDocument, PII};
use crate::text::str_eq;
use crate::CompileArgs;

verus! {

/// A corpus: parsed fragments indexed by root-relative path. Lookup is by
/// key; the entry order records the order in which the loader found the
/// fragments. Keys are unique.
pub struct Corpus {
    entries: Vec<(String, Document)>,
}

/// The mapping that a sequence of corpus entries denotes; a later entry with
/// the same key would win, though a well-formed corpus has unique keys.
pub open spec fn corpus_map_of(s: Seq<(Seq<char>, DocumentView)>) -> Map<Seq<char>, DocumentView>
    decreases s.len(),
{
    if s.len() == 0 {
        Map::empty()
    } else {
        corpus_map_of(s.drop_last()).insert(s.last().0, s.last().1)
    }
}

impl View for Corpus {
    type V = Seq<(Seq<char>, DocumentView)>;

    closed spec fn view(&self) -> Seq<(Seq<char>, DocumentView)> {
        self.entries@.map_values(|e: (String, Document)| (e.0@, e.1@))
    }
}

impl Corpus {
    /// The corpus contents as a mapping from relative path to document.
    pub open spec fn as_map(&self) -> Map<Seq<char>, DocumentView> {
        corpus_map_of(self@)
    }

    /// Well-formedness: no two entries share a key.
    pub open spec fn wf(&self) -> bool {
        forall|i: int, j: int| 0 <= i < j < self@.len() ==> (#[trigger] self@[i]).0 != (
        #[trigger] self@[j]).0
    }

    /// An empty corpus.
    pub fn new() -> (r: Corpus)
        ensures
            r@ == Seq::<(Seq<char>, DocumentView)>::empty(),
            r.wf(),
    {
        Corpus { entries: Vec::new() }
    }

    /// The number of fragments held.
    pub fn len(&self) -> (r: usize)
        ensures
            r == self@.len(),
    {
        self.entries.len()
    }

    /// Whether the corpus holds no fragment at all.
    pub fn is_empty(&self) -> (r: bool)
        ensures
            r == (self@.len() == 0),
    {
        self.entries.len() == 0
    }

    /// The entry at the given position, in loader order.
    pub fn entry_at(&self, i: usize) -> (r: (&String, &Document))
        requires
            i < self@.len(),
        ensures
            r.0@ == self@[i as int].0,
            r.1@ == self@[i as int].1,
    {
        let e = &self.entries[i];
        (&e.0, &e.1)
    }

    /// The position of the entry with the given key, if one exists.
    fn position_of(&self, key: &str) -> (r: Option<usize>)
        ensures
            match r {
                Some(i) => i < self@.len() && self@[i as int].0 == key@,
                None => forall|i: int| 0 <= i < self@.len() ==> (#[trigger] self@[i]).0 != key@,
            },
    {
        let n = self.entries.len();
        let mut i: usize = 0;
        while i < n
            invariant
                i <= n,
                n == self@.len(),
                forall|j: int| 0 <= j < i ==> (#[trigger] self@[j]).0 != key@,
            decreases n - i,
        {
            if str_eq(self.entries[i].0.as_str(), key) {
                return Some(i);
            }
            i = i + 1;
        }
        None
    }

    /// Whether a fragment is registered under the given relative path.
    pub fn contains_key(&self, key: &str) -> (r: bool)
        requires
            self.wf(),
        ensures
            r == self.as_map().contains_key(key@),
    {
        match self.position_of(key) {
            Some(i) => {
                proof {
                    lemma_corpus_map_entry(self@, i as int);
                }
                true
            },
            None => {
                proof {
                    lemma_corpus_map_no_key(self@, key@);
                }
                false
            },
        }
    }

    /// The fragment registered under the given relative path, if any.
    pub fn get(&self, key: &str) -> (r: Option<&Document>)
        requires
            self.wf(),
        ensures
            match r {
                Some(d) => self.as_map().contains_key(key@) && d@ == self.as_map()[key@],
                None => !self.as_map().contains_key(key@),
            },
    {
        match self.position_of(key) {
            Some(i) => {
                proof {
                    lemma_corpus_map_entry(self@, i as int);
                }
                Some(&self.entries[i].1)
            },
            None => {
                proof {
                    lemma_corpus_map_no_key(self@, key@);
                }
                None
            },
        }
    }

    /// Register a fragment under a relative path. A path already present
    /// keeps its position and has its document replaced; a fresh path is
    /// appended in loader order.
    pub fn insert(&mut self, key: String, doc: Document)
        requires
            old(self).wf(),
        ensures
            final(self).wf(),
            final(self).as_map() == old(self).as_map().insert(key@, doc@),
            (forall|i: int| 0 <= i < old(self)@.len() ==> (#[trigger] old(self)@[i]).0 != key@)
                ==> final(self)@ == old(self)@.push((key@, doc@)),
    {
        let ghost pre = self@;
        match self.position_of(key.as_str()) {
            Some(i) => {
                let ghost kv = key@;
                self.entries.set(i, (key, doc));
                proof {
                    assert(self@ =~= pre.update(i as int, (kv, doc@)));
                    lemma_corpus_map_update(pre, i as int, doc@);
                }
            },
            None => {
                let ghost kv = key@;
                self.entries.push((key, doc));
                proof {
                    assert(self@ =~= pre.push((kv, doc@)));
                    assert(self@.drop_last() =~= pre);
                }
            },
        }
    }
}

impl Corpus {
    /// Take over every fragment of another corpus: a partial corpus read
    /// from a subdirectory is merged into its parent's. Where both corpora
    /// hold a path, the merged-in document wins; a recursive tree walk over
    /// distinct files never meets that case.
    pub fn merge(&mut self, other: &Corpus)
        requires
            old(self).wf(),
            other.wf(),
        ensures
            final(self).wf(),
            final(self).as_map() == old(self).as_map().union_prefer_right(other.as_map()),
    {
        let ghost base = self.as_map();
        let n = other.len();
        let mut i: usize = 0;
        proof {
            assert(other@.take(0) =~= Seq::<(Seq<char>, DocumentView)>::empty());
            assert(base.union_prefer_right(corpus_map_of(other@.take(0))) =~= base);
        }
        while i < n
            invariant
                i <= n,
                n == other@.len(),
                other.wf(),
                self.wf(),
                self.as_map() == base.union_prefer_right(corpus_map_of(other@.take(i as int))),
            decreases n - i,
        {
            let (key, doc) = other.entry_at(i);
            self.insert(key.clone(), doc.duplicate());
            i = i + 1;
            proof {
                assert(other@.take(i as int).drop_last() =~= other@.take(i as int - 1));
                assert(corpus_map_of(other@.take(i as int)) == corpus_map_of(
                    other@.take(i as int - 1),
                ).insert(other@[i as int - 1].0, other@[i as int - 1].1));
                assert(self.as_map() =~= base.union_prefer_right(
                    corpus_map_of(other@.take(i as int)),
                ));
            }
        }
        proof {
            assert(other@.take(n as int) =~= other@);
        }
    }

    /// A copy of this corpus with the same entries in the same order.
    pub fn duplicate(&self) -> (r: Corpus)
        ensures
            r@ == self@,
            r.wf() == self.wf(),
    {
        let n = self.entries.len();
        let mut entries: Vec<(String, Document)> = Vec::new();
        let mut i: usize = 0;
        while i < n
            invariant
                i <= n,
                n == self.entries@.len(),
                entries@.len() == i,
                forall|j: int|
                    0 <= j < i ==> ((#[trigger] entries@[j]).0@, entries@[j].1@) == ((
                    #[trigger] self.entries@[j]).0@, self.entries@[j].1@),
            decreases n - i,
        {
            let e = &self.entries[i];
            entries.push((e.0.clone(), e.1.duplicate()));
            i = i + 1;
        }
        let r = Corpus { entries };
        proof {
            assert(r@ =~= self@);
        }
        r
    }
}

/// An entry of a key-unique sequence is found in the denoted mapping.
proof fn lemma_corpus_map_entry(s: Seq<(Seq<char>, DocumentView)>, i: int)
    requires
        0 <= i < s.len(),
        forall|p: int, q: int| 0 <= p < q < s.len() ==> (#[trigger] s[p]).0 != (#[trigger] s[q]).0,
    ensures
        corpus_map_of(s).contains_key(s[i].0),
        corpus_map_of(s)[s[i].0] == s[i].1,
    decreases s.len(),
{
    if i == s.len() - 1 {
    } else {
        assert(forall|p: int, q: int|
            0 <= p < q < s.drop_last().len() ==> (#[trigger] s.drop_last()[p]).0 != (
            #[trigger] s.drop_last()[q]).0);
        lemma_corpus_map_entry(s.drop_last(), i);
        assert(s.last().0 != s[i].0);
    }
}

/// A key under which no entry stands is absent from the denoted mapping.
proof fn lemma_corpus_map_no_key(s: Seq<(Seq<char>, DocumentView)>, k: Seq<char>)
    requires
        forall|i: int| 0 <= i < s.len() ==> (#[trigger] s[i]).0 != k,
    ensures
        !corpus_map_of(s).contains_key(k),
    decreases s.len(),
{
    if s.len() > 0 {
        assert(forall|i: int|
            0 <= i < s.drop_last().len() ==> (#[trigger] s.drop_last()[i]).0 != k);
        lemma_corpus_map_no_key(s.drop_last(), k);
    }
}

/// Replacing the document of one entry updates the denoted mapping at that
/// entry's key.
proof fn lemma_corpus_map_update(s: Seq<(Seq<char>, DocumentView)>, i: int, d: DocumentView)
    requires
        0 <= i < s.len(),
        forall|p: int, q: int| 0 <= p < q < s.len() ==> (#[trigger] s[p]).0 != (#[trigger] s[q]).0,
    ensures
        corpus_map_of(s.update(i, (s[i].0, d))) == corpus_map_of(s).insert(s[i].0, d),
    decreases s.len(),
{
    let t = s.update(i, (s[i].0, d));
    if i == s.len() - 1 {
        assert(t.drop_last() =~= s.drop_last());
        assert(corpus_map_of(t) =~= corpus_map_of(s).insert(s[i].0, d));
    } else {
        assert(t.drop_last() =~= s.drop_last().update(i, (s[i].0, d)));
        assert(forall|p: int, q: int|
            0 <= p < q < s.drop_last().len() ==> (#[trigger] s.drop_last()[p]).0 != (
            #[trigger] s.drop_last()[q]).0);
        lemma_corpus_map_update(s.drop_last(), i, d);
        assert(s.last().0 != s[i].0);
        assert(corpus_map_of(t) =~= corpus_map_of(s).insert(s[i].0, d));
    }
}

/// Two corpora holding the same documents under the same keys denote the
/// same mapping: the contents of a corpus are determined by its entries
/// alone, not by the order in which a directory walk found them.
pub proof fn lemma_corpus_contents_deterministic(a: Corpus, b: Corpus)
    requires
        a.as_map().dom() == b.as_map().dom(),
        forall|k: Seq<char>| a.as_map().dom().contains(k) ==> a.as_map()[k] == b.as_map()[k],
    ensures
        a.as_map() == b.as_map(),
{
    assert(a.as_map() =~= b.as_map());
}

/// Registering two fragments under distinct paths yields the same corpus
/// contents in either order: directory-enumeration order does not affect the
/// resulting mapping.
pub proof fn lemma_insert_order_irrelevant(
    m: Map<Seq<char>, DocumentView>,
    k1: Seq<char>,
    d1: DocumentView,
    k2: Seq<char>,
    d2: DocumentView,
)
    requires
        k1 != k2,
    ensures
        m.insert(k1, d1).insert(k2, d2) == m.insert(k2, d2).insert(k1, d1),
{
    assert(m.insert(k1, d1).insert(k2, d2) =~= m.insert(k2, d2).insert(k1, d1));
}

/// Merging two corpora with disjoint paths gives the same contents in either
/// order: a recursive tree walk may merge its partial results in any order.
pub proof fn lemma_merge_order_irrelevant(a: Map<Seq<char>, DocumentView>, b: Map<Seq<char>, DocumentView>)
    requires
        a.dom().disjoint(b.dom()),
    ensures
        a.union_prefer_right(b) == b.union_prefer_right(a),
{
    assert(a.union_prefer_right(b) =~= b.union_prefer_right(a));
}

/// Relies on `shellexpand::tilde`: expands a leading `~` to the user's home
/// directory; a string that does not start with `~` is returned unchanged.
#[verifier::external_body]
fn expand_tilde(s: &str) -> (r: String)
    ensures
        s@.len() == 0 ==> r@ == s@,
        s@.len() > 0 && s@[0] != '~' ==> r@ == s@,
{
    shellexpand::tilde(s).to_string()
}

/// The context for one manuscript compilation run.
pub struct Context {
    /// Whether the manuscript should be anonymous or identifying.
    pub anonymous: bool,
    /// Whether the manuscript should be formatted in classic style.
    pub classic: bool,
    /// The compilation root: the file or directory the corpus was read from.
    pub basedir: String,
    /// The parsed fragments, keyed by root-relative path.
    pub files: Corpus,
    /// The font to use for the rendered document.
    pub font: String,
    /// The font size to use for the rendered document.
    pub font_size: usize,
    /// Personally identifiable information for the contact block.
    pub pii: Option<PiiDocument>,
    /// The folder to create the manuscript in.
    pub output_dir: String,
    /// Only display the word count for the manuscript.
    pub word_count: bool,
}

impl Context {
    /// A fresh context for the given arguments: identifying modern style in
    /// the default font, with an empty corpus. The caller reads the
    /// fragments and the contact details and registers them afterwards,
    /// since that takes filesystem access.
    pub fn new(args: &CompileArgs) -> (r: Context)
        ensures
            r.anonymous == false,
            r.classic == false,
            r.basedir@ == args.filename_or_path@,
            r.files@ == Seq::<(Seq<char>, DocumentView)>::empty(),
            r.files.wf(),
            r.font@ == constants::DEFAULT_FONT@,
            r.font_size == constants::FONT_SIZE,
            r.pii is None,
            args.output_dir matches Some(d) ==> r.output_dir@ == d@,
            r.word_count == (args.word_count matches Some(true)),
    {
        let output_dir = match &args.output_dir {
            Some(d) => d.clone(),
            None => expand_tilde("~/Documents/Writing"),
        };
        let word_count = match args.word_count {
            Some(b) => b,
            None => false,
        };
        Context {
            anonymous: false,
            classic: false,
            basedir: args.filename_or_path.clone(),
            files: Corpus::new(),
            font: String::from_str(constants::DEFAULT_FONT),
            font_size: constants::FONT_SIZE,
            pii: None,
            output_dir,
            word_count,
        }
    }

    /// A copy of this context with the same settings and the same corpus, so
    /// that each font and style combination can run its own pass.
    pub fn duplicate(&self) -> (r: Context)
        ensures
            r.anonymous == self.anonymous,
            r.classic == self.classic,
            r.basedir@ == self.basedir@,
            r.files@ == self.files@,
            r.files.wf() == self.files.wf(),
            r.font@ == self.font@,
            r.font_size == self.font_size,
            r.pii is Some <==> self.pii is Some,
            self.pii is Some ==> r.pii->0@ == self.pii->0@,
            r.output_dir@ == self.output_dir@,
            r.word_count == self.word_count,
    {
        let pii = match &self.pii {
            Some(p) => Some(
                PiiDocument {
                    metadata: PII {
                        legal_name: dup_opt_string(&p.metadata.legal_name),
                        email: dup_opt_string(&p.metadata.email),
                        phone: dup_opt_string(&p.metadata.phone),
                        address1: dup_opt_string(&p.metadata.address1),
                        address2: dup_opt_string(&p.metadata.address2),
                        city: dup_opt_string(&p.metadata.city),
                        state: dup_opt_string(&p.metadata.state),
                        postal_code: dup_opt_string(&p.metadata.postal_code),
                        country: dup_opt_string(&p.metadata.country),
                        affiliations: dup_opt_string_vec(&p.metadata.affiliations),
                    },
                    content: p.content.clone(),
                },
            ),
            None => None,
        };
        Context {
            anonymous: self.anonymous,
            classic: self.classic,
            basedir: self.basedir.clone(),
            files: self.files.duplicate(),
            font: self.font.clone(),
            font_size: self.font_size,
            pii,
            output_dir: self.output_dir.clone(),
            word_count: self.word_count,
        }
    }

    /// Whether a fragment is registered under the given relative path.
    pub fn file_exists(&self, filename: &str) -> (r: bool)
        requires
            self.files.wf(),
        ensures
            r == self.files.as_map().contains_key(filename@),
    {
        self.files.contains_key(filename)
    }

    /// The fragment registered under the given relative path. The caller
    /// checks presence first; the corpus invariantly holds every path the
    /// manifest may name once loading succeeded.
    pub fn get_file(&self, filename: &str) -> (r: Option<&Document>)
        requires
            self.files.wf(),
        ensures
            match r {
                Some(d) => self.files.as_map().contains_key(filename@) && d@
                    == self.files.as_map()[filename@],
                None => !self.files.as_map().contains_key(filename@),
            },
    {
        self.files.get(filename)
    }

    /// The absolute path of a fragment: the compilation root joined with the
    /// fragment's relative path.
    pub fn get_file_path(self, filename: String) -> (r: String)
        ensures
            r@ == self.basedir@ + seq!['/'] + filename@,
    {
        let mut r = self.basedir;
        r.append("/");
        r.append(filename.as_str());
        proof {
            reveal_strlit("/");
            assert(r@ =~= self.basedir@ + seq!['/'] + filename@);
        }
        r
    }
}

} // verus!
