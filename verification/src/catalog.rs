//! The catalog: which category key each label variant stands for.

use vstd::prelude::*;
use vstd::string::StringExecFns;
use crate::error::Error;
use crate::text::texts;
use crate::textmap::TextMap;

verus! {

/// One entry of the catalog document as a mathematical value: a category key
/// and the label variants that stand for it.
pub type EntryView = (Seq<char>, Seq<Seq<char>>);

/// `before`, with each of `variants` mapped to `key`.
pub open spec fn with_variants(
    before: Map<Seq<char>, Seq<char>>,
    key: Seq<char>,
    variants: Seq<Seq<char>>,
) -> Map<Seq<char>, Seq<char>>
    decreases variants.len(),
{
    if variants.len() == 0 {
        before
    } else {
        with_variants(before, key, variants.drop_last()).insert(variants.last(), key)
    }
}

/// The mapping from label variant to category key that a catalog document
/// stands for. Where a variant is listed under two keys, the later entry
/// decides.
pub open spec fn catalog_of(document: Seq<EntryView>) -> Map<Seq<char>, Seq<char>>
    decreases document.len(),
{
    if document.len() == 0 {
        Map::empty()
    } else {
        with_variants(catalog_of(document.drop_last()), document.last().0, document.last().1)
    }
}

/// A catalog document as a mathematical value.
pub open spec fn document_view(document: Seq<(String, Vec<String>)>) -> Seq<EntryView> {
    document.map_values(|entry: (String, Vec<String>)| (entry.0@, texts(entry.1@)))
}

/// Adding the variants of one key maps exactly those variants to the key and
/// leaves every other label as it was.
pub proof fn lemma_with_variants(
    before: Map<Seq<char>, Seq<char>>,
    key: Seq<char>,
    variants: Seq<Seq<char>>,
    label: Seq<char>,
)
    ensures
        variants.contains(label) ==> with_variants(before, key, variants).contains_key(label)
            && with_variants(before, key, variants)[label] == key,
        !variants.contains(label) ==> with_variants(before, key, variants).contains_key(label)
            == before.contains_key(label),
        !variants.contains(label) && before.contains_key(label) ==> with_variants(
            before,
            key,
            variants,
        )[label] == before[label],
    decreases variants.len(),
{
    if variants.len() > 0 {
        let earlier = variants.drop_last();
        lemma_with_variants(before, key, earlier, label);
        if variants.contains(label) {
            let at = choose|at: int| 0 <= at < variants.len() && variants[at] == label;
            if at < earlier.len() {
                assert(earlier[at] == label);
            }
        } else {
            assert(variants[variants.len() - 1] != label);
            if earlier.contains(label) {
                let at = choose|at: int| 0 <= at < earlier.len() && earlier[at] == label;
                assert(variants[at] == label);
            }
        }
    }
}

/// A label is in the catalog exactly when some entry of the document lists it.
pub proof fn lemma_catalog_domain(document: Seq<EntryView>, label: Seq<char>)
    ensures
        catalog_of(document).contains_key(label) <==> exists|entry: int|
            0 <= entry < document.len() && (#[trigger] document[entry]).1.contains(label),
    decreases document.len(),
{
    if document.len() > 0 {
        let earlier = document.drop_last();
        let last = document.last();
        lemma_catalog_domain(earlier, label);
        lemma_with_variants(catalog_of(earlier), last.0, last.1, label);
        if catalog_of(document).contains_key(label) {
            if last.1.contains(label) {
                assert(document[document.len() - 1].1.contains(label));
            } else {
                let entry = choose|entry: int|
                    0 <= entry < earlier.len() && (#[trigger] earlier[entry]).1.contains(label);
                assert(document[entry] == earlier[entry]);
            }
        } else {
            assert forall|entry: int| 0 <= entry < document.len() implies !(
            #[trigger] document[entry]).1.contains(label) by {
                if entry < earlier.len() {
                    assert(document[entry] == earlier[entry]);
                }
            }
        }
    }
}

/// A label resolves to the key of the last entry that lists it.
pub proof fn lemma_catalog_lookup(document: Seq<EntryView>, entry: int, label: Seq<char>)
    requires
        0 <= entry < document.len(),
        document[entry].1.contains(label),
        forall|later: int|
            entry < later < document.len() ==> !(#[trigger] document[later]).1.contains(label),
    ensures
        catalog_of(document).contains_key(label),
        catalog_of(document)[label] == document[entry].0,
    decreases document.len(),
{
    let earlier = document.drop_last();
    let last = document.last();
    lemma_with_variants(catalog_of(earlier), last.0, last.1, label);
    if entry < document.len() - 1 {
        assert(!document[document.len() - 1].1.contains(label));
        assert(earlier[entry] == document[entry]);
        assert forall|later: int| entry < later < earlier.len() implies !(
        #[trigger] earlier[later]).1.contains(label) by {
            assert(earlier[later] == document[later]);
        }
        lemma_catalog_lookup(earlier, entry, label);
    }
}

/// The catalog: a mapping from label variant to category key.
#[derive(Debug)]
pub struct Catalog {
    aliases: TextMap,
}

impl View for Catalog {
    type V = Map<Seq<char>, Seq<char>>;

    closed spec fn view(&self) -> Map<Seq<char>, Seq<char>> {
        self.aliases@
    }
}

impl Catalog {
    /// The catalog that knows no label.
    pub fn new() -> (catalog: Catalog)
        ensures
            catalog@ == Map::<Seq<char>, Seq<char>>::empty(),
    {
        Catalog { aliases: TextMap::new() }
    }

    /// Lets each of `variants` stand for `key`.
    pub fn add(&mut self, key: &str, variants: &Vec<String>)
        ensures
            final(self)@ == with_variants(old(self)@, key@, texts(variants@)),
    {
        let ghost all = texts(variants@);
        let mut at: usize = 0;
        while at < variants.len()
            invariant
                at <= variants.len(),
                all == texts(variants@),
                self@ == with_variants(old(self)@, key@, all.take(at as int)),
            decreases variants.len() - at,
        {
            proof {
                assert(all.take(at + 1).drop_last() =~= all.take(at as int));
                assert(all.take(at + 1).last() == variants@[at as int]@);
            }
            self.aliases.insert(variants[at].clone(), String::from_str(key));
            at += 1;
        }
        assert(all.take(variants.len() as int) =~= all);
    }

    /// Builds the catalog of a document: a list of category keys, each with
    /// the label variants that stand for it.
    pub fn from_document(document: &Vec<(String, Vec<String>)>) -> (catalog: Catalog)
        ensures
            catalog@ == catalog_of(document_view(document@)),
    {
        let ghost all = document_view(document@);
        let mut catalog = Catalog::new();
        let mut at: usize = 0;
        while at < document.len()
            invariant
                at <= document.len(),
                all == document_view(document@),
                catalog@ == catalog_of(all.take(at as int)),
            decreases document.len() - at,
        {
            proof {
                assert(all.take(at + 1).drop_last() =~= all.take(at as int));
                assert(all.take(at + 1).last() == (
                    document@[at as int].0@,
                    texts(document@[at as int].1@),
                ));
            }
            catalog.add(document[at].0.as_str(), &document[at].1);
            at += 1;
        }
        assert(all.take(document.len() as int) =~= all);
        catalog
    }

    /// The category key that `label` stands for. A label that the catalog does
    /// not list is an unknown challenge.
    pub fn resolve_category(&self, label: &str) -> (r: Result<String, Error>)
        ensures
            match r {
                Ok(key) => self@.contains_key(label@) && key@ == self@[label@],
                Err(e) => {
                    &&& !self@.contains_key(label@)
                    &&& e matches Error::UnknownChallenge(asked)
                    &&& asked@ == label@
                },
            },
    {
        match self.aliases.get(label) {
            Some(key) => Ok(key.clone()),
            None => Err(Error::UnknownChallenge(String::from_str(label))),
        }
    }
}

} // verus!
