//! The document cache: one current document per document identifier.
use vstd::prelude::*;
use crate::document::Document;
use crate::model::{ParseError, RawNode};

verus! {

/// Index of the first identifier of `ids` that reads `k`, or -1.
pub open spec fn index_of(ids: Seq<String>, k: Seq<char>) -> int
    decreases ids.len(),
{
    if ids.len() == 0 {
        -1
    } else if ids[0]@ == k {
        0
    } else {
        let i = index_of(ids.drop_first(), k);
        if i >= 0 { i + 1 } else { -1 }
    }
}

/// No identifier occurs twice.
pub open spec fn unique_ids(ids: Seq<String>) -> bool {
    forall|i: int, j: int| 0 <= i < j < ids.len() ==> (#[trigger] ids[i])@ != (#[trigger] ids[j])@
}

/// Maps each document identifier to its current document.
pub struct DocumentCache {
    ids: Vec<String>,
    docs: Vec<Document>,
}

impl DocumentCache {
    /// The identifiers and documents held, as a map.
    pub closed spec fn view(&self) -> Map<Seq<char>, Document> {
        Map::new(
            |k: Seq<char>| index_of(self.ids@, k) >= 0,
            |k: Seq<char>| self.docs@[index_of(self.ids@, k)],
        )
    }

    pub closed spec fn wf(&self) -> bool {
        &&& self.ids@.len() == self.docs@.len()
        &&& forall|i: int| 0 <= i < self.docs@.len() ==> (#[trigger] self.docs@[i]).wf()
        &&& unique_ids(self.ids@)
    }

    /// An empty cache.
    pub fn new() -> (c: DocumentCache)
        ensures
            c.wf(),
            c.view() == Map::<Seq<char>, Document>::empty(),
    {
        let c = DocumentCache { ids: Vec::new(), docs: Vec::new() };
        assert(c.view() =~= Map::<Seq<char>, Document>::empty());
        c
    }
}

proof fn lemma_index_of_bounds(ids: Seq<String>, k: Seq<char>)
    ensures
        -1 <= index_of(ids, k) < ids.len(),
        index_of(ids, k) >= 0 ==> ids[index_of(ids, k)]@ == k,
        index_of(ids, k) < 0 ==> forall|j: int| 0 <= j < ids.len() ==> (#[trigger] ids[j])@ != k,
    decreases ids.len(),
{
    if ids.len() > 0 {
        lemma_index_of_bounds(ids.drop_first(), k);
        if index_of(ids, k) < 0 {
            assert forall|j: int| 0 <= j < ids.len() implies (#[trigger] ids[j])@ != k by {
                if j > 0 {
                    assert(ids[j] == ids.drop_first()[j - 1]);
                }
            }
        }
    }
}

proof fn lemma_index_of_unique(ids: Seq<String>, k: Seq<char>, i: int)
    requires
        unique_ids(ids),
        0 <= i < ids.len(),
        ids[i]@ == k,
    ensures
        index_of(ids, k) == i,
{
    lemma_index_of_bounds(ids, k);
    let j = index_of(ids, k);
    if j >= 0 && j != i {
        if j < i {
            assert(ids[j]@ != ids[i]@);
        } else {
            assert(ids[i]@ != ids[j]@);
        }
    }
}

/// Index of `id` among `ids`.
fn find_id(ids: &Vec<String>, id: &String) -> (r: Option<usize>)
    ensures
        r matches Some(i) ==> i == index_of(ids@, id@),
        r.is_none() ==> index_of(ids@, id@) == -1,
{
    let mut i: usize = 0;
    assert(ids@.subrange(0, ids@.len() as int) =~= ids@);
    while i < ids.len()
        invariant
            i <= ids@.len(),
            index_of(ids@, id@) == if index_of(ids@.subrange(i as int, ids@.len() as int), id@) >= 0 {
                i + index_of(ids@.subrange(i as int, ids@.len() as int), id@)
            } else {
                -1
            },
        decreases ids@.len() - i,
    {
        let ghost rest = ids@.subrange(i as int, ids@.len() as int);
        assert(rest.drop_first() =~= ids@.subrange(i + 1, ids@.len() as int));
        if ids[i] == *id {
            return Some(i);
        }
        i = i + 1;
    }
    None
}

proof fn lemma_index_of_push(ids: Seq<String>, id: String, k: Seq<char>)
    requires
        index_of(ids, id@) == -1,
    ensures
        index_of(ids.push(id), k) == if k == id@ { ids.len() as int } else { index_of(ids, k) },
    decreases ids.len(),
{
    lemma_index_of_bounds(ids, k);
    if ids.len() > 0 {
        assert(ids.push(id).drop_first() =~= ids.drop_first().push(id));
        assert(ids.push(id)[0] == ids[0]);
        lemma_index_of_bounds(ids.drop_first(), id@);
        assert(ids[0]@ != id@);
        lemma_index_of_push(ids.drop_first(), id, k);
        lemma_index_of_bounds(ids.drop_first(), k);
        lemma_index_of_bounds(ids.drop_first().push(id), k);
        if ids[0]@ == k {
            assert(index_of(ids.push(id), k) == 0);
        } else {
            assert(index_of(ids.push(id), k) == {
                let i = index_of(ids.drop_first().push(id), k);
                if i >= 0 { i + 1 } else { -1 }
            });
        }
    } else {
        assert(ids.push(id).drop_first().len() == 0);
        assert(index_of(ids.push(id).drop_first(), k) == -1);
        assert(ids.push(id)[0] == id);
    }
}

impl DocumentCache {
    /// Parses `text` with the parser's tree of it and makes the result the
    /// current document of `id`; when parsing fails the cache is left as it was.
    pub fn register_or_update(&mut self, id: &String, text: String, tree: Option<&RawNode>) -> (r: Result<&Document, ParseError>)
        requires
            old(self).wf(),
        ensures
            final(self).wf(),
            r is Ok <==> Document::parse_succeeds(text@, tree),
            r matches Ok(d) ==> d.parsed_from(text@, *tree.unwrap())
                && final(self).view() == old(self).view().insert(id@, *d),
            r is Err ==> final(self).view() == old(self).view(),
    {
        let doc = match Document::parse(text, tree) {
            Ok(d) => d,
            Err(e) => return Err(e),
        };
        let ghost old_ids = self.ids@;
        proof {
            lemma_index_of_bounds(self.ids@, id@);
        }
        let i = match find_id(&self.ids, id) {
            Some(i) => {
                self.docs.set(i, doc);
                i
            },
            None => {
                self.ids.push(id.clone());
                self.docs.push(doc);
                proof {
                    assert forall|k: Seq<char>| #[trigger] index_of(self.ids@, k) == if k == id@ { old_ids.len() as int } else { index_of(old_ids, k) } by {
                        lemma_index_of_push(old_ids, *id, k);
                    }
                    assert forall|a: int, b: int| 0 <= a < b < self.ids@.len() implies (#[trigger] self.ids@[a])@ != (#[trigger] self.ids@[b])@ by {
                        if b == self.ids@.len() - 1 {
                            assert(old_ids[a]@ != id@);
                        } else {
                            assert(self.ids@[a] == old_ids[a] && self.ids@[b] == old_ids[b]);
                        }
                    }
                }
                self.ids.len() - 1
            },
        };
        proof {
            lemma_index_of_bounds(self.ids@, id@);
            assert forall|k: Seq<char>| #[trigger] self.view().contains_key(k) == old(self).view().insert(id@, self.docs@[i as int]).contains_key(k)
                && (self.view().contains_key(k) ==> self.view()[k] == old(self).view().insert(id@, self.docs@[i as int])[k]) by {
                lemma_index_of_bounds(self.ids@, k);
                lemma_index_of_bounds(old(self).ids@, k);
            }
            assert(self.view() =~= old(self).view().insert(id@, self.docs@[i as int]));
        }
        Ok(&self.docs[i])
    }

    /// Drops the document of `id`, if there is one.
    pub fn remove(&mut self, id: &String)
        requires
            old(self).wf(),
        ensures
            final(self).wf(),
            final(self).view() == old(self).view().remove(id@),
    {
        proof {
            lemma_index_of_bounds(self.ids@, id@);
        }
        match find_id(&self.ids, id) {
            Some(i) => {
                let ghost old_ids = self.ids@;
                let ghost old_docs = self.docs@;
                self.ids.remove(i);
                self.docs.remove(i);
                proof {
                    assert forall|a: int, b: int| 0 <= a < b < self.ids@.len() implies (#[trigger] self.ids@[a])@ != (#[trigger] self.ids@[b])@ by {
                        let a0 = if a < i { a } else { a + 1 };
                        let b0 = if b < i { b } else { b + 1 };
                        assert(self.ids@[a] == old_ids[a0] && self.ids@[b] == old_ids[b0]);
                    }
                    assert forall|j: int| 0 <= j < self.docs@.len() implies (#[trigger] self.docs@[j]).wf() by {
                        let j0 = if j < i { j } else { j + 1 };
                        assert(self.docs@[j] == old_docs[j0]);
                    }
                    assert forall|k: Seq<char>| #[trigger] self.view().contains_key(k) == old(self).view().remove(id@).contains_key(k)
                        && (self.view().contains_key(k) ==> self.view()[k] == old(self).view().remove(id@)[k]) by {
                        lemma_index_of_bounds(self.ids@, k);
                        lemma_index_of_bounds(old_ids, k);
                        let n = index_of(self.ids@, k);
                        let o = index_of(old_ids, k);
                        if n >= 0 {
                            let n0 = if n < i { n } else { n + 1 };
                            assert(self.ids@[n] == old_ids[n0]);
                            lemma_index_of_unique(old_ids, k, n0);
                        }
                        if o >= 0 && k != id@ {
                            assert(o != i);
                            let o1 = if o < i { o } else { o - 1 };
                            assert(self.ids@[o1] == old_ids[o]);
                            lemma_index_of_unique(self.ids@, k, o1);
                        }
                        if k == id@ && n >= 0 {
                            let n0 = if n < i { n } else { n + 1 };
                            assert(self.ids@[n] == old_ids[n0]);
                            assert(old_ids[i as int]@ == id@);
                        }
                    }
                    assert(self.view() =~= old(self).view().remove(id@));
                }
            },
            None => {
                proof {
                    assert(self.view() =~= old(self).view().remove(id@));
                }
            },
        }
    }

    /// The current document of `id`.
    pub fn get(&self, id: &String) -> (r: Option<&Document>)
        requires
            self.wf(),
        ensures
            r.is_some() == self.view().contains_key(id@),
            r matches Some(d) ==> *d == self.view()[id@] && d.wf(),
    {
        proof {
            lemma_index_of_bounds(self.ids@, id@);
        }
        match find_id(&self.ids, id) {
            Some(i) => Some(&self.docs[i]),
            None => None,
        }
    }
}

} // verus!
