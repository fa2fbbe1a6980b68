//! The full-text inverted index.
//!
//! Terms map to posting lists (document to term frequency); beside them
//! live per-document lengths and per-term document frequencies, and the
//! total document count.  Scoring (the Okapi weighting of these counts) is
//! floating-point work and happens outside this crate; everything the
//! scorer reads is specified here exactly.

use vstd::prelude::*;
use crate::assoc::{
    spec_assoc_map,
    spec_assoc_unique,
    lemma_assoc_contains,
    lemma_assoc_index,
    lemma_assoc_len,
    assoc_get,
    assoc_set,
    assoc_remove,
};
use crate::tokenize::{tokenize, spec_tokenize};

verus! {

/// Number of occurrences of `t` among `toks`.
pub open spec fn spec_count(toks: Seq<Seq<char>>, t: Seq<char>) -> nat
    decreases toks.len(),
{
    if toks.len() == 0 {
        0
    } else {
        spec_count(toks.drop_last(), t) + if toks.last() == t {
            1nat
        } else {
            0nat
        }
    }
}

/// A count clamped to what a 32-bit field holds.
pub open spec fn spec_clamp_u32(n: nat) -> u32 {
    if n > u32::MAX {
        u32::MAX
    } else {
        n as u32
    }
}

/// One less, stopping at zero.
pub open spec fn spec_sat_sub1(n: u32) -> u32 {
    if n == 0 {
        0
    } else {
        (n - 1) as u32
    }
}

/// One more, stopping at the field's maximum.
pub open spec fn spec_sat_add1(n: u32) -> u32 {
    if n == u32::MAX {
        u32::MAX
    } else {
        (n + 1) as u32
    }
}

/// The posting list of `t` once `doc` has been deleted from `ix`: what an
/// insertion of `doc` builds on.
pub open spec fn spec_eff_postings(ix: BM25Index, doc: Seq<char>, t: Seq<char>) -> Map<
    Seq<char>,
    u32,
> {
    if ix.spec_postings().contains_key(t) {
        if ix.spec_lengths().contains_key(doc) {
            ix.spec_postings()[t].remove(doc)
        } else {
            ix.spec_postings()[t]
        }
    } else {
        Map::empty()
    }
}

/// The document frequency of `t` once `doc` has been deleted from `ix`.
pub open spec fn spec_eff_df(ix: BM25Index, doc: Seq<char>, t: Seq<char>) -> u32 {
    if ix.spec_lengths().contains_key(doc) && ix.spec_postings().contains_key(t)
        && ix.spec_postings()[t].contains_key(doc) {
        spec_sat_sub1(ix.spec_dfs()[t])
    } else {
        ix.spec_dfs()[t]
    }
}

/// During an insertion, term `t` has been folded in: its posting list is
/// the post-delete one with the document's frequency added, and its
/// document frequency rose by one (or started at one).
pub open spec fn spec_term_folded(
    cur: BM25Index,
    dst: BM25Index,
    tfmap: Map<Seq<char>, u32>,
    doc: Seq<char>,
    t: Seq<char>,
) -> bool {
    &&& cur.spec_postings().contains_key(t)
    &&& cur.spec_postings()[t] == (if dst.spec_postings().contains_key(t) {
        dst.spec_postings()[t]
    } else {
        Map::<Seq<char>, u32>::empty()
    }).insert(doc, tfmap[t])
    &&& cur.spec_dfs().contains_key(t)
    &&& cur.spec_dfs()[t] == (if dst.spec_dfs().contains_key(t) {
        spec_sat_add1(dst.spec_dfs()[t])
    } else {
        1u32
    })
}

/// During an insertion, term `t` has not been touched since the delete.
pub open spec fn spec_term_untouched(cur: BM25Index, dst: BM25Index, t: Seq<char>) -> bool {
    &&& cur.spec_postings().contains_key(t) == dst.spec_postings().contains_key(t)
    &&& dst.spec_postings().contains_key(t) ==> cur.spec_postings()[t] == dst.spec_postings()[t]
    &&& cur.spec_dfs().contains_key(t) == dst.spec_dfs().contains_key(t)
    &&& dst.spec_dfs().contains_key(t) ==> cur.spec_dfs()[t] == dst.spec_dfs()[t]
}

pub struct BM25Index {
    inverted_index: Vec<(String, Vec<(String, u32)>)>,
    doc_lengths: Vec<(String, u32)>,
    term_dfs: Vec<(String, u32)>,
    total_docs: u64,
}

impl BM25Index {
    /// Document lengths, by document id.
    pub closed spec fn spec_lengths(&self) -> Map<Seq<char>, u32> {
        spec_assoc_map(self.doc_lengths@)
    }

    /// Document frequencies, by term.
    pub closed spec fn spec_dfs(&self) -> Map<Seq<char>, u32> {
        spec_assoc_map(self.term_dfs@)
    }

    /// Posting lists: term to (document to term frequency).
    pub closed spec fn spec_postings(&self) -> Map<Seq<char>, Map<Seq<char>, u32>> {
        spec_assoc_map(self.inverted_index@).map_values(
            |p: Vec<(String, u32)>| spec_assoc_map(p@),
        )
    }

    /// Total number of indexed documents.
    pub closed spec fn spec_total(&self) -> u64 {
        self.total_docs
    }

    /// Structural invariant: unique keys throughout and a document count in
    /// step with the length map.
    pub closed spec fn wf(&self) -> bool {
        &&& spec_assoc_unique(self.inverted_index@)
        &&& spec_assoc_unique(self.doc_lengths@)
        &&& spec_assoc_unique(self.term_dfs@)
        &&& forall|i: int|
            0 <= i < self.inverted_index@.len() ==> spec_assoc_unique(
                (#[trigger] self.inverted_index@[i]).1@,
            )
        &&& self.total_docs == self.doc_lengths@.len()
    }

    /// An empty index.
    pub fn new() -> (r: BM25Index)
        ensures
            r.wf(),
            r.spec_lengths() == Map::<Seq<char>, u32>::empty(),
            r.spec_dfs() == Map::<Seq<char>, u32>::empty(),
            r.spec_postings() == Map::<Seq<char>, Map<Seq<char>, u32>>::empty(),
            r.spec_total() == 0,
    {
        let r = BM25Index {
            inverted_index: Vec::new(),
            doc_lengths: Vec::new(),
            term_dfs: Vec::new(),
            total_docs: 0,
        };
        proof {
            assert(r.spec_postings() =~= Map::<Seq<char>, Map<Seq<char>, u32>>::empty());
        }
        r
    }

    /// Number of indexed documents.
    pub fn len(&self) -> (r: usize)
        requires
            self.wf(),
        ensures
            r == self.spec_lengths().len(),
            r == self.spec_total(),
    {
        proof {
            lemma_assoc_len(self.doc_lengths@);
        }
        self.doc_lengths.len()
    }

    /// Whether no document is indexed.
    pub fn is_empty(&self) -> (r: bool)
        requires
            self.wf(),
        ensures
            r == (self.spec_lengths().len() == 0),
    {
        proof {
            lemma_assoc_len(self.doc_lengths@);
        }
        self.doc_lengths.is_empty()
    }

    /// Total document count, as the scorer reads it.
    pub fn total_docs(&self) -> (r: u64)
        ensures
            r == self.spec_total(),
    {
        self.total_docs
    }

    /// The recorded length of a document.
    pub fn doc_length(&self, doc_id: &str) -> (r: Option<u32>)
        requires
            self.wf(),
        ensures
            match r {
                Some(l) => self.spec_lengths().contains_key(doc_id@)
                    && self.spec_lengths()[doc_id@] == l,
                None => !self.spec_lengths().contains_key(doc_id@),
            },
    {
        match assoc_get(&self.doc_lengths, doc_id) {
            Some(l) => Some(*l),
            None => None,
        }
    }

    /// The recorded document frequency of a term.
    pub fn term_df(&self, term: &str) -> (r: Option<u32>)
        requires
            self.wf(),
        ensures
            match r {
                Some(df) => self.spec_dfs().contains_key(term@) && self.spec_dfs()[term@] == df,
                None => !self.spec_dfs().contains_key(term@),
            },
    {
        match assoc_get(&self.term_dfs, term) {
            Some(df) => Some(*df),
            None => None,
        }
    }

    /// The posting list of a term: documents and term frequencies.
    pub fn postings_of<'a>(&'a self, term: &str) -> (r: Option<&'a Vec<(String, u32)>>)
        requires
            self.wf(),
        ensures
            match r {
                Some(p) => {
                    &&& self.spec_postings().contains_key(term@)
                    &&& spec_assoc_unique(p@)
                    &&& spec_assoc_map(p@) == self.spec_postings()[term@]
                },
                None => !self.spec_postings().contains_key(term@),
            },
    {
        let found = assoc_get(&self.inverted_index, term);
        proof {
            lemma_assoc_contains(self.inverted_index@, term@);
        }
        match found {
            Some(p) => {
                proof {
                    let i = choose|i: int|
                        0 <= i < self.inverted_index@.len() && (#[trigger] self.inverted_index@[
                            i
                        ]).0@ == term@;
                    assert(spec_assoc_unique(self.inverted_index@[i].1@));
                    lemma_assoc_index(self.inverted_index@, i);
                }
                Some(p)
            },
            None => None,
        }
    }

    /// Remove a document: its length and count go, it leaves every posting
    /// list, and the document frequency of every term that listed it drops
    /// by one.  Removing an unknown document changes nothing.
    pub fn delete_doc(&mut self, doc_id: &str)
        requires
            old(self).wf(),
        ensures
            final(self).wf(),
            final(self).spec_lengths() == old(self).spec_lengths().remove(doc_id@),
            final(self).spec_total() == if old(self).spec_lengths().contains_key(doc_id@) {
                (old(self).spec_total() - 1) as u64
            } else {
                old(self).spec_total()
            },
            final(self).spec_postings().dom() == old(self).spec_postings().dom(),
            old(self).spec_lengths().contains_key(doc_id@) ==> forall|t: Seq<char>|
                old(self).spec_postings().contains_key(t) ==> final(self).spec_postings()[t]
                    == #[trigger] old(self).spec_postings()[t].remove(doc_id@),
            !old(self).spec_lengths().contains_key(doc_id@) ==> final(self).spec_postings() == old(
                self,
            ).spec_postings(),
            final(self).spec_dfs().dom() == old(self).spec_dfs().dom(),
            forall|t: Seq<char>|
                old(self).spec_dfs().contains_key(t) ==> final(self).spec_dfs()[t] == (
                if {
                    &&& old(self).spec_lengths().contains_key(doc_id@)
                    &&& old(self).spec_postings().contains_key(t)
                    &&& old(self).spec_postings()[t].contains_key(doc_id@)
                } {
                    spec_sat_sub1(#[trigger] old(self).spec_dfs()[t])
                } else {
                    old(self).spec_dfs()[t]
                }),
    {
        proof {
            lemma_assoc_len(self.doc_lengths@);
        }
        let had = assoc_remove(&mut self.doc_lengths, doc_id);
        if had.is_none() {
            return ;
        }
        self.total_docs = self.total_docs - 1;

        let ghost orig = self.inverted_index@;
        let ghost orig_dfs = self.term_dfs@;
        let ghost orig_post = old(self).spec_postings();
        let n = self.inverted_index.len();
        let mut rebuilt: Vec<(String, Vec<(String, u32)>)> = Vec::new();
        let mut rem: usize = n;
        proof {
            assert(orig.take(n as int) =~= orig);
        }
        while rem > 0
            invariant
                rem == self.inverted_index@.len(),
                n == orig.len(),
                spec_assoc_unique(self.doc_lengths@),
                spec_assoc_map(self.doc_lengths@) == old(self).spec_lengths().remove(doc_id@),
                old(self).spec_lengths().contains_key(doc_id@),
                self.doc_lengths@.len() + 1 == old(self).doc_lengths@.len(),
                self.total_docs == self.doc_lengths@.len(),
                old(self).spec_total() == old(self).doc_lengths@.len(),
                self.inverted_index@ == orig.take(rem as int),
                rebuilt@.len() == n - rem,
                spec_assoc_unique(orig),
                forall|i: int| 0 <= i < n ==> spec_assoc_unique((#[trigger] orig[i]).1@),
                forall|j: int|
                    0 <= j < n - rem ==> {
                        &&& (#[trigger] rebuilt@[j]).0@ == orig[n - 1 - j].0@
                        &&& spec_assoc_unique(rebuilt@[j].1@)
                        &&& spec_assoc_map(rebuilt@[j].1@) == spec_assoc_map(
                            orig[n - 1 - j].1@,
                        ).remove(doc_id@)
                    },
                spec_assoc_unique(self.term_dfs@),
                spec_assoc_map(self.term_dfs@).dom() == spec_assoc_map(orig_dfs).dom(),
                forall|t: Seq<char>|
                    spec_assoc_map(orig_dfs).contains_key(t) ==> spec_assoc_map(self.term_dfs@)[t]
                        == (if exists|j: int|
                        rem <= j < n && (#[trigger] orig[j]).0@ == t && spec_assoc_map(
                            orig[j].1@,
                        ).contains_key(doc_id@) {
                        spec_sat_sub1(#[trigger] spec_assoc_map(orig_dfs)[t])
                    } else {
                        spec_assoc_map(orig_dfs)[t]
                    }),
            decreases rem,
        {
            let ghost dfs_before = self.term_dfs@;
            let (term, mut postings) = self.inverted_index.pop().unwrap();
            proof {
                assert(orig.take(rem as int).last() == orig[rem - 1]);
                assert(orig.take(rem as int).drop_last() =~= orig.take(rem as int - 1));
            }
            let removed = assoc_remove(&mut postings, doc_id);
            if removed.is_some() {
                let new_df: Option<u32> = match assoc_get(&self.term_dfs, term.as_str()) {
                    Some(d) => {
                        if *d == 0 {
                            Some(0)
                        } else {
                            Some(*d - 1)
                        }
                    },
                    None => None,
                };
                if let Some(v) = new_df {
                    assoc_set(&mut self.term_dfs, term.clone(), v);
                }
            }
            rebuilt.push((term, postings));
            rem = rem - 1;
            proof {
                // Each unprocessed index keeps a key other than this one,
                // so the frequency adjustment lands on exactly one term.
                assert forall|t: Seq<char>|
                    spec_assoc_map(orig_dfs).contains_key(t) implies spec_assoc_map(
                    self.term_dfs@,
                )[t] == (if exists|j: int|
                    rem <= j < n && (#[trigger] orig[j]).0@ == t && spec_assoc_map(
                        orig[j].1@,
                    ).contains_key(doc_id@) {
                    spec_sat_sub1(spec_assoc_map(orig_dfs)[t])
                } else {
                    spec_assoc_map(orig_dfs)[t]
                }) by {
                    let e = orig[rem as int];
                    if t == e.0@ {
                        assert(forall|j: int|
                            rem + 1 <= j < n ==> (#[trigger] orig[j]).0@ != t);
                        if spec_assoc_map(e.1@).contains_key(doc_id@) {
                            assert(orig[rem as int].0@ == t && spec_assoc_map(
                                orig[rem as int].1@,
                            ).contains_key(doc_id@));
                        }
                    } else {
                        assert(spec_assoc_map(self.term_dfs@)[t] == spec_assoc_map(
                            dfs_before,
                        )[t]);
                        assert((exists|j: int|
                            rem <= j < n && (#[trigger] orig[j]).0@ == t && spec_assoc_map(
                                orig[j].1@,
                            ).contains_key(doc_id@)) == (exists|j: int|
                            rem + 1 <= j < n && (#[trigger] orig[j]).0@ == t && spec_assoc_map(
                                orig[j].1@,
                            ).contains_key(doc_id@)));
                    }
                }
            }
        }
        self.inverted_index = rebuilt;
        proof {
            self.lemma_rebuilt_reversed(orig, doc_id@, orig_post);
            lemma_assoc_len(self.doc_lengths@);
            let n_ = orig.len();
            assert forall|t: Seq<char>| spec_assoc_map(orig_dfs).contains_key(t) implies (exists|
                j: int,
            |
                0 <= j < n_ && (#[trigger] orig[j]).0@ == t && spec_assoc_map(
                    orig[j].1@,
                ).contains_key(doc_id@)) == (orig_post.contains_key(t) && orig_post[
                t
            ].contains_key(doc_id@)) by {
                lemma_assoc_contains(orig, t);
                if exists|j: int|
                    0 <= j < n_ && (#[trigger] orig[j]).0@ == t && spec_assoc_map(
                        orig[j].1@,
                    ).contains_key(doc_id@) {
                    let j = choose|j: int|
                        0 <= j < n_ && (#[trigger] orig[j]).0@ == t && spec_assoc_map(
                            orig[j].1@,
                        ).contains_key(doc_id@);
                    lemma_assoc_index(orig, j);
                }
                if orig_post.contains_key(t) && orig_post[t].contains_key(doc_id@) {
                    let j = choose|j: int| 0 <= j < n_ && (#[trigger] orig[j]).0@ == t;
                    lemma_assoc_index(orig, j);
                }
            }
        }
    }

    /// After the walk, the rebuilt list reads as the original with the
    /// document removed from every posting list.
    proof fn lemma_rebuilt_reversed(
        &self,
        orig: Seq<(String, Vec<(String, u32)>)>,
        doc: Seq<char>,
        orig_post: Map<Seq<char>, Map<Seq<char>, u32>>,
    )
        requires
            self.inverted_index@.len() == orig.len(),
            spec_assoc_unique(orig),
            orig_post == spec_assoc_map(orig).map_values(
                |p: Vec<(String, u32)>| spec_assoc_map(p@),
            ),
            forall|j: int|
                0 <= j < orig.len() ==> {
                    &&& (#[trigger] self.inverted_index@[j]).0@ == orig[orig.len() - 1 - j].0@
                    &&& spec_assoc_unique(self.inverted_index@[j].1@)
                    &&& spec_assoc_map(self.inverted_index@[j].1@) == spec_assoc_map(
                        orig[orig.len() - 1 - j].1@,
                    ).remove(doc)
                },
        ensures
            spec_assoc_unique(self.inverted_index@),
            forall|i: int|
                0 <= i < self.inverted_index@.len() ==> spec_assoc_unique(
                    (#[trigger] self.inverted_index@[i]).1@,
                ),
            self.spec_postings().dom() == orig_post.dom(),
            forall|t: Seq<char>|
                orig_post.contains_key(t) ==> self.spec_postings()[t] == #[trigger] orig_post[
                    t
                ].remove(doc),
    {
        let cur = self.inverted_index@;
        let n = orig.len();
        assert forall|i: int, j: int| 0 <= i < j < cur.len() implies (#[trigger] cur[i]).0@ != (
        #[trigger] cur[j]).0@ by {
            assert(cur[i].0@ == orig[n - 1 - i].0@);
            assert(cur[j].0@ == orig[n - 1 - j].0@);
        }
        assert forall|t: Seq<char>|
            spec_assoc_map(cur).contains_key(t) == spec_assoc_map(orig).contains_key(t) by {
            lemma_assoc_contains(cur, t);
            lemma_assoc_contains(orig, t);
            if exists|i: int| 0 <= i < cur.len() && (#[trigger] cur[i]).0@ == t {
                let i = choose|i: int| 0 <= i < cur.len() && (#[trigger] cur[i]).0@ == t;
                assert(orig[n - 1 - i].0@ == t);
            }
            if exists|i: int| 0 <= i < orig.len() && (#[trigger] orig[i]).0@ == t {
                let i = choose|i: int| 0 <= i < orig.len() && (#[trigger] orig[i]).0@ == t;
                assert(cur[n - 1 - i].0@ == t);
            }
        }
        assert(self.spec_postings().dom() =~= orig_post.dom());
        assert forall|t: Seq<char>| orig_post.contains_key(t) implies self.spec_postings()[t]
            == orig_post[t].remove(doc) by {
            lemma_assoc_contains(cur, t);
            let i = choose|i: int| 0 <= i < cur.len() && (#[trigger] cur[i]).0@ == t;
            lemma_assoc_index(cur, i);
            lemma_assoc_index(orig, n - 1 - i);
        }
    }

    /// Index a document.  Any previous version is removed first; the text's
    /// token count becomes the document's length, its term frequencies join
    /// the posting lists, and each distinct term's document frequency rises
    /// by one.
    pub fn insert_doc(&mut self, doc_id: &str, text: &str)
        requires
            old(self).wf(),
        ensures
            final(self).wf(),
            final(self).spec_lengths() == old(self).spec_lengths().insert(
                doc_id@,
                spec_tokenize(text@).len() as u32,
            ),
            final(self).spec_total() == old(self).spec_total() + (
            if old(self).spec_lengths().contains_key(doc_id@) {
                0int
            } else {
                1int
            }),
            forall|t: Seq<char>|
                #![auto]
                final(self).spec_postings().contains_key(t) <==> (old(
                    self,
                ).spec_postings().contains_key(t) || spec_count(spec_tokenize(text@), t) > 0),
            forall|t: Seq<char>|
                #![auto]
                spec_count(spec_tokenize(text@), t) > 0 ==> final(self).spec_postings()[t]
                    == spec_eff_postings(*old(self), doc_id@, t).insert(
                    doc_id@,
                    spec_clamp_u32(spec_count(spec_tokenize(text@), t)),
                ),
            forall|t: Seq<char>|
                #![auto]
                old(self).spec_postings().contains_key(t) && spec_count(spec_tokenize(text@), t)
                    == 0 ==> final(self).spec_postings()[t] == spec_eff_postings(
                    *old(self),
                    doc_id@,
                    t,
                ),
            forall|t: Seq<char>|
                #![auto]
                final(self).spec_dfs().contains_key(t) <==> (old(self).spec_dfs().contains_key(t)
                    || spec_count(spec_tokenize(text@), t) > 0),
            forall|t: Seq<char>|
                #![auto]
                spec_count(spec_tokenize(text@), t) > 0 ==> final(self).spec_dfs()[t] == (
                if old(self).spec_dfs().contains_key(t) {
                    spec_sat_add1(spec_eff_df(*old(self), doc_id@, t))
                } else {
                    1u32
                }),
            forall|t: Seq<char>|
                #![auto]
                old(self).spec_dfs().contains_key(t) && spec_count(spec_tokenize(text@), t) == 0
                    ==> final(self).spec_dfs()[t] == spec_eff_df(*old(self), doc_id@, t),
    {
        self.delete_doc(doc_id);
        let ghost dst = *self;
        let toks = tokenize(text);
        let ghost stoks = spec_tokenize(text@);
        let doc_len: u32 = #[verifier::truncate] (toks.len() as u32);

        // Count term frequencies.
        let n = toks.len();
        let mut term_freqs: Vec<(String, u32)> = Vec::new();
        let mut i: usize = 0;
        proof {
            assert(stoks.take(0) =~= Seq::<Seq<char>>::empty());
        }
        while i < n
            invariant
                i <= n == toks@.len(),
                stoks == spec_tokenize(text@),
                n == stoks.len(),
                forall|k: int| 0 <= k < n ==> (#[trigger] toks@[k])@ == stoks[k],
                spec_assoc_unique(term_freqs@),
                forall|t: Seq<char>|
                    #![trigger spec_count(stoks.take(i as int), t)]
                    #![trigger spec_assoc_map(term_freqs@).contains_key(t)]
                    spec_count(stoks.take(i as int), t) > 0 ==> spec_assoc_map(
                        term_freqs@,
                    ).contains_key(t) && spec_assoc_map(term_freqs@)[t] == spec_clamp_u32(
                        spec_count(stoks.take(i as int), t),
                    ),
                forall|t: Seq<char>|
                    #![trigger spec_count(stoks.take(i as int), t)]
                    #![trigger spec_assoc_map(term_freqs@).contains_key(t)]
                    spec_assoc_map(term_freqs@).contains_key(t) ==> spec_count(
                        stoks.take(i as int),
                        t,
                    ) > 0,
            decreases n - i,
        {
            let cur: u32 = match assoc_get(&term_freqs, toks[i].as_str()) {
                Some(c) => *c,
                None => 0,
            };
            let nv: u32 = if cur == u32::MAX {
                u32::MAX
            } else {
                cur + 1
            };
            let ghost tf_before = term_freqs@;
            let tok = toks[i].clone();
            assoc_set(&mut term_freqs, tok, nv);
            proof {
                assert(stoks.take(i as int + 1).drop_last() =~= stoks.take(i as int));
                assert(stoks.take(i as int + 1).last() == stoks[i as int]);
                assert forall|t: Seq<char>| #![auto] true implies spec_count(
                    stoks.take(i as int + 1),
                    t,
                ) == spec_count(stoks.take(i as int), t) + (if t == stoks[i as int] {
                    1int
                } else {
                    0int
                }) by {
                    assert(spec_count(stoks.take(i as int + 1), t) == spec_count(
                        stoks.take(i as int + 1).drop_last(),
                        t,
                    ) + if stoks.take(i as int + 1).last() == t {
                        1nat
                    } else {
                        0nat
                    });
                }
                assert(toks@[i as int]@ == stoks[i as int]);
                assert forall|t: Seq<char>|
                    #![trigger spec_count(stoks.take(i as int + 1), t)]
                    #![trigger spec_assoc_map(term_freqs@).contains_key(t)]
                    spec_count(stoks.take(i as int + 1), t) > 0 implies spec_assoc_map(
                    term_freqs@,
                ).contains_key(t) && spec_assoc_map(term_freqs@)[t] == spec_clamp_u32(
                    spec_count(stoks.take(i as int + 1), t),
                ) by {
                    if t == stoks[i as int] {
                        let c0 = spec_count(stoks.take(i as int), t);
                        if c0 > 0 {
                            assert(spec_assoc_map(tf_before).contains_key(t));
                            assert(cur == spec_clamp_u32(c0));
                        } else {
                            assert(!spec_assoc_map(tf_before).contains_key(t));
                            assert(cur == 0);
                        }
                        assert(nv == spec_clamp_u32(c0 + 1));
                        assert(spec_assoc_map(term_freqs@)[t] == nv);
                    } else {
                        assert(spec_count(stoks.take(i as int + 1), t) == spec_count(
                            stoks.take(i as int),
                            t,
                        ));
                        assert(spec_assoc_map(term_freqs@).contains_key(t) == spec_assoc_map(
                            tf_before,
                        ).contains_key(t));
                        if spec_assoc_map(tf_before).contains_key(t) {
                            assert(spec_assoc_map(term_freqs@)[t] == spec_assoc_map(tf_before)[t]);
                        }
                    }
                }
                assert forall|t: Seq<char>|
                    #![trigger spec_count(stoks.take(i as int + 1), t)]
                    #![trigger spec_assoc_map(term_freqs@).contains_key(t)]
                    spec_assoc_map(term_freqs@).contains_key(t) implies spec_count(
                    stoks.take(i as int + 1),
                    t,
                ) > 0 by {
                    if t != stoks[i as int] {
                        assert(spec_assoc_map(tf_before).contains_key(t));
                        assert(spec_count(stoks.take(i as int + 1), t) == spec_count(
                            stoks.take(i as int),
                            t,
                        ));
                    }
                }
            }
            i = i + 1;
        }
        proof {
            assert(stoks.take(n as int) =~= stoks);
            assert forall|t: Seq<char>|
                #![trigger spec_count(stoks, t)]
                #![trigger spec_assoc_map(term_freqs@).contains_key(t)]
                spec_count(stoks, t) > 0 implies spec_assoc_map(term_freqs@).contains_key(t)
                && spec_assoc_map(term_freqs@)[t] == spec_clamp_u32(spec_count(stoks, t)) by {
                assert(spec_count(stoks, t) == spec_count(stoks.take(n as int), t));
            }
            assert forall|t: Seq<char>|
                #![trigger spec_count(stoks, t)]
                #![trigger spec_assoc_map(term_freqs@).contains_key(t)]
                spec_assoc_map(term_freqs@).contains_key(t) implies spec_count(stoks, t) > 0 by {
                assert(spec_count(stoks, t) == spec_count(stoks.take(n as int), t));
            }
        }

        // Fold the frequencies into the posting lists and term frequencies.
        let m = term_freqs.len();
        let mut k: usize = 0;
        while k < m
            invariant
                k <= m == term_freqs@.len(),
                spec_assoc_unique(term_freqs@),
                stoks == spec_tokenize(text@),
                forall|t: Seq<char>|
                    #![trigger spec_count(stoks, t)]
                    #![trigger spec_assoc_map(term_freqs@).contains_key(t)]
                    spec_count(stoks, t) > 0 ==> spec_assoc_map(term_freqs@).contains_key(t)
                        && spec_assoc_map(term_freqs@)[t] == spec_clamp_u32(spec_count(stoks, t)),
                forall|t: Seq<char>|
                    #![trigger spec_count(stoks, t)]
                    #![trigger spec_assoc_map(term_freqs@).contains_key(t)]
                    spec_assoc_map(term_freqs@).contains_key(t) ==> spec_count(stoks, t) > 0,
                spec_assoc_unique(self.inverted_index@),
                forall|e: int|
                    0 <= e < self.inverted_index@.len() ==> spec_assoc_unique(
                        (#[trigger] self.inverted_index@[e]).1@,
                    ),
                spec_assoc_unique(self.term_dfs@),
                self.doc_lengths@ == dst.doc_lengths@,
                self.total_docs == dst.total_docs,
                forall|t: Seq<char>|
                    #![trigger spec_term_folded(*self, dst, spec_assoc_map(term_freqs@), doc_id@, t)]
                    #![trigger spec_term_untouched(*self, dst, t)]
                    if exists|j: int| 0 <= j < k && (#[trigger] term_freqs@[j]).0@ == t {
                        spec_term_folded(*self, dst, spec_assoc_map(term_freqs@), doc_id@, t)
                    } else {
                        spec_term_untouched(*self, dst, t)
                    },
            decreases m - k,
        {
            let ghost pre = *self;
            let term = term_freqs[k].0.clone();
            let tfv = term_freqs[k].1;
            let removed = assoc_remove(&mut self.inverted_index, term.as_str());
            let ghost had_term = removed is Some;
            proof {
                if removed is Some {
                    lemma_assoc_contains(pre.inverted_index@, term@);
                    let e = choose|e: int|
                        0 <= e < pre.inverted_index@.len() && (#[trigger] pre.inverted_index@[
                            e
                        ]).0@ == term@;
                    lemma_assoc_index(pre.inverted_index@, e);
                }
            }
            let mut plist = match removed {
                Some(p) => p,
                None => Vec::new(),
            };
            let ghost plist_before = plist@;
            assoc_set(&mut plist, doc_id.to_owned(), tfv);
            let ghost plist_snap = plist@;
            assoc_set(&mut self.inverted_index, term.clone(), plist);
            let dcur: Option<u32> = match assoc_get(&self.term_dfs, term.as_str()) {
                Some(d) => Some(*d),
                None => None,
            };
            match dcur {
                Some(d) => {
                    let nv = if d == u32::MAX {
                        u32::MAX
                    } else {
                        d + 1
                    };
                    assoc_set(&mut self.term_dfs, term, nv);
                },
                None => {
                    assoc_set(&mut self.term_dfs, term, 1);
                },
            }
            proof {
                // Every posting list in the new state is either the fresh
                // one or one carried over, so inner uniqueness holds.
                assert forall|e: int|
                    0 <= e < self.inverted_index@.len() implies spec_assoc_unique(
                    (#[trigger] self.inverted_index@[e]).1@,
                ) by {
                    lemma_assoc_index(self.inverted_index@, e);
                    let key = self.inverted_index@[e].0@;
                    if key == term@ {
                        assert(self.inverted_index@[e].1@ == plist_snap);
                    } else {
                        lemma_assoc_contains(pre.inverted_index@, key);
                        let e2 = choose|e2: int|
                            0 <= e2 < pre.inverted_index@.len() && (#[trigger] pre.inverted_index@[
                                e2
                            ]).0@ == key;
                        lemma_assoc_index(pre.inverted_index@, e2);
                    }
                }
            }
            k = k + 1;
            proof {
                assert(term_freqs@[k - 1].0@ == term@);
                lemma_assoc_index(term_freqs@, k - 1);
                // The one processed term was untouched before this step.
                assert(!(exists|j: int| 0 <= j < k - 1 && (#[trigger] term_freqs@[j]).0@ == term@));
                let ghost tfmap = spec_assoc_map(term_freqs@);
                assert(spec_term_untouched(pre, dst, term@));
                assert forall|t: Seq<char>|
                    #![trigger spec_term_folded(*self, dst, tfmap, doc_id@, t)]
                    #![trigger spec_term_untouched(*self, dst, t)]
                    if exists|j: int| 0 <= j < k && (#[trigger] term_freqs@[j]).0@ == t {
                        spec_term_folded(*self, dst, tfmap, doc_id@, t)
                    } else {
                        spec_term_untouched(*self, dst, t)
                    } by {
                    if !(exists|j: int| 0 <= j < k && (#[trigger] term_freqs@[j]).0@ == t) {
                        assert(t != term@);
                        assert(!(exists|j: int|
                            0 <= j < k - 1 && (#[trigger] term_freqs@[j]).0@ == t));
                        assert(spec_term_untouched(pre, dst, t));
                        assert(self.spec_postings().contains_key(t) == pre.spec_postings(
                        ).contains_key(t));
                        if pre.spec_postings().contains_key(t) {
                            assert(self.spec_postings()[t] == pre.spec_postings()[t]);
                        }
                        assert(self.spec_dfs().contains_key(t) == pre.spec_dfs().contains_key(t));
                        if pre.spec_dfs().contains_key(t) {
                            assert(self.spec_dfs()[t] == pre.spec_dfs()[t]);
                        }
                        assert(spec_term_untouched(*self, dst, t));
                    } else if t == term@ {
                        assert(spec_assoc_map(plist_snap) == spec_assoc_map(plist_before).insert(
                            doc_id@,
                            tfv,
                        ));
                        if had_term {
                            assert(spec_assoc_map(pre.inverted_index@).contains_key(term@));
                            assert(pre.spec_postings().contains_key(term@));
                            assert(pre.spec_postings()[term@] == spec_assoc_map(plist_before));
                        } else {
                            assert(!spec_assoc_map(pre.inverted_index@).contains_key(term@));
                            assert(!pre.spec_postings().contains_key(term@));
                            assert(spec_assoc_map(plist_before) =~= Map::<Seq<char>, u32>::empty());
                        }
                        assert(spec_assoc_map(plist_snap) == (
                        if dst.spec_postings().contains_key(term@) {
                            dst.spec_postings()[term@]
                        } else {
                            Map::<Seq<char>, u32>::empty()
                        }).insert(doc_id@, tfv));
                        assert(spec_assoc_map(self.inverted_index@).contains_key(term@));
                        assert(spec_assoc_map(self.inverted_index@)[term@]@ == plist_snap);
                        assert(self.spec_postings()[term@] == spec_assoc_map(plist_snap));
                        assert(spec_assoc_map(term_freqs@)[t] == tfv);
                        assert(pre.spec_dfs().contains_key(term@) == dst.spec_dfs().contains_key(
                            term@,
                        ));
                        assert(dst.spec_dfs().contains_key(term@) ==> pre.spec_dfs()[term@]
                            == dst.spec_dfs()[term@]);
                        assert(self.spec_dfs().contains_key(term@));
                        assert(self.spec_dfs()[term@] == (if dst.spec_dfs().contains_key(term@) {
                            spec_sat_add1(dst.spec_dfs()[term@])
                        } else {
                            1u32
                        }));
                        assert(spec_term_folded(*self, dst, tfmap, doc_id@, term@));
                    } else {
                        let j = choose|j: int|
                            0 <= j < k && (#[trigger] term_freqs@[j]).0@ == t;
                        assert(j < k - 1);
                        assert(spec_term_folded(pre, dst, tfmap, doc_id@, t));
                        assert(self.spec_postings().contains_key(t) == pre.spec_postings(
                        ).contains_key(t));
                        assert(pre.spec_postings().contains_key(t));
                        assert(self.spec_postings()[t] == pre.spec_postings()[t]);
                        assert(self.spec_dfs().contains_key(t));
                        assert(self.spec_dfs()[t] == pre.spec_dfs()[t]);
                        assert(spec_term_folded(*self, dst, tfmap, doc_id@, t));
                    }
                }
            }
        }

        let ghost fst = *self;
        proof {
            assert(!spec_assoc_map(dst.doc_lengths@).contains_key(doc_id@));
        }
        assoc_set(&mut self.doc_lengths, doc_id.to_owned(), doc_len);
        let new_count = self.doc_lengths.len();
        proof {
            assert(new_count == dst.doc_lengths@.len() + 1);
            assert(self.total_docs + 1 == new_count);
        }
        self.total_docs = self.total_docs + 1;
        proof {
            assert(self.spec_lengths() =~= old(self).spec_lengths().insert(doc_id@, doc_len));
            // Connect the processed-terms view with the token counts.
            assert forall|t: Seq<char>| #![auto] true implies ((exists|j: int|
                0 <= j < term_freqs@.len() && (#[trigger] term_freqs@[j]).0@ == t) == (spec_count(
                stoks,
                t,
            ) > 0)) by {
                lemma_assoc_contains(term_freqs@, t);
                assert(spec_assoc_map(term_freqs@).contains_key(t) == (spec_count(stoks, t) > 0));
            }
            let ghost tfmap = spec_assoc_map(term_freqs@);
            assert(self.spec_postings() == fst.spec_postings());
            assert(self.spec_dfs() == fst.spec_dfs());
            assert forall|t: Seq<char>|
                #![auto]
                self.spec_postings().contains_key(t) == (old(self).spec_postings().contains_key(t)
                    || spec_count(stoks, t) > 0) by {
                let mention = spec_term_folded(fst, dst, tfmap, doc_id@, t);
                let mention2 = spec_term_untouched(fst, dst, t);
                assert(dst.spec_postings().contains_key(t) == old(self).spec_postings(
                ).contains_key(t));
            }
            assert forall|t: Seq<char>|
                #![auto]
                spec_count(stoks, t) > 0 implies self.spec_postings()[t] == spec_eff_postings(
                *old(self),
                doc_id@,
                t,
            ).insert(doc_id@, spec_clamp_u32(spec_count(stoks, t))) by {
                let mention = spec_term_folded(fst, dst, tfmap, doc_id@, t);
                assert(dst.spec_postings().contains_key(t) == old(self).spec_postings(
                ).contains_key(t));
                if old(self).spec_postings().contains_key(t) {
                    let mention2 = old(self).spec_postings()[t].remove(doc_id@);
                    assert(dst.spec_postings()[t] == spec_eff_postings(*old(self), doc_id@, t));
                }
                assert(spec_assoc_map(term_freqs@)[t] == spec_clamp_u32(spec_count(stoks, t)));
            }
            assert forall|t: Seq<char>|
                #![auto]
                old(self).spec_postings().contains_key(t) && spec_count(stoks, t) == 0 implies self
                .spec_postings()[t] == spec_eff_postings(*old(self), doc_id@, t) by {
                let mention = spec_term_untouched(fst, dst, t);
                let mention2 = old(self).spec_postings()[t].remove(doc_id@);
            }
            assert forall|t: Seq<char>|
                #![auto]
                self.spec_dfs().contains_key(t) == (old(self).spec_dfs().contains_key(t)
                    || spec_count(stoks, t) > 0) by {
                let mention = spec_term_folded(fst, dst, tfmap, doc_id@, t);
                let mention2 = spec_term_untouched(fst, dst, t);
            }
            assert forall|t: Seq<char>|
                #![auto]
                spec_count(stoks, t) > 0 implies self.spec_dfs()[t] == (
            if old(self).spec_dfs().contains_key(t) {
                spec_sat_add1(spec_eff_df(*old(self), doc_id@, t))
            } else {
                1u32
            }) by {
                let mention = spec_term_folded(fst, dst, tfmap, doc_id@, t);
                if old(self).spec_dfs().contains_key(t) {
                    let mention2 = old(self).spec_postings()[t].remove(doc_id@);
                    assert(dst.spec_dfs()[t] == spec_eff_df(*old(self), doc_id@, t));
                }
            }
            assert forall|t: Seq<char>|
                #![auto]
                old(self).spec_dfs().contains_key(t) && spec_count(stoks, t) == 0 implies self
                .spec_dfs()[t] == spec_eff_df(*old(self), doc_id@, t) by {
                let mention = spec_term_untouched(fst, dst, t);
                let mention2 = old(self).spec_postings()[t].remove(doc_id@);
            }
        }
    }

    /// The per-document lengths, for the scorer's average length.
    pub fn doc_lengths_entries(&self) -> (r: &Vec<(String, u32)>)
        requires
            self.wf(),
        ensures
            spec_assoc_unique(r@),
            spec_assoc_map(r@) == self.spec_lengths(),
    {
        &self.doc_lengths
    }
}

} // verus!
