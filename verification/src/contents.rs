//! What a package holds: for each manga its covers and, for each chapter, the
//! image files kept in each quality.

use std::collections::HashMap;
use vstd::prelude::*;
use vstd::std_specs::iter::IteratorSpec;

use crate::dirs::DirsOptions;
use crate::images::ChapterImagesData;
use crate::model::{find_first_relationships, first_of_type, ChapterEntry, CoverEntry, MangaEntry, RelationshipType};

verus! {

broadcast use vstd::std_specs::hash::group_hash_axioms;

/// The image files of one chapter, by quality.
#[derive(Debug)]
pub struct PChapterObject {
    pub data: Vec<String>,
    pub data_saver: Vec<String>,
}

/// The covers and chapters of one manga in a package.
#[derive(Debug)]
pub struct PMangaObject {
    pub covers: Vec<u128>,
    pub chapters: HashMap<u128, PChapterObject>,
}

/// How a package was written, and the layout its paths follow.
#[derive(Debug)]
pub struct PackageContentsOptions {
    pub directories: Option<DirsOptions>,
    pub zstd_compressed_images: bool,
    pub zstd_compressed_metadata: bool,
}

/// The table of contents of a package, keyed by manga id.
#[derive(Debug)]
pub struct PackageContents {
    pub options: Option<PackageContentsOptions>,
    pub data: HashMap<u128, PMangaObject>,
}

/// `s` with every run of equal neighbours reduced to its first element.
pub open spec fn dedup(s: Seq<u128>) -> Seq<u128>
    decreases s.len(),
{
    if s.len() <= 1 {
        s
    } else {
        let d = dedup(s.drop_last());
        if s.last() == s[s.len() - 2] {
            d
        } else {
            d.push(s.last())
        }
    }
}

/// The manga entry that a merge starts from for key `k`: the existing one,
/// or an empty one.
pub open spec fn covers_or_empty(m: Map<u128, PMangaObject>, k: u128) -> Seq<u128> {
    if m.contains_key(k) {
        m[k].covers@
    } else {
        Seq::empty()
    }
}

pub open spec fn chapters_or_empty(m: Map<u128, PMangaObject>, k: u128) -> Map<
    u128,
    PChapterObject,
> {
    if m.contains_key(k) {
        m[k].chapters@
    } else {
        Map::empty()
    }
}

/// The result of merging package `rhs` into `lhs`: every manga of either
/// side; for a manga of `rhs`, its covers appended to those of `lhs` (runs of
/// equal neighbours reduced to one) and its chapters put over those of `lhs`.
pub open spec fn merged(
    lhs: Map<u128, PMangaObject>,
    rhs: Map<u128, PMangaObject>,
    r: Map<u128, PMangaObject>,
) -> bool {
    &&& r.dom() == lhs.dom().union(rhs.dom())
    &&& forall|k: u128|
        #[trigger] r.contains_key(k) && !rhs.contains_key(k) ==> r[k] == lhs[k]
    &&& forall|k: u128|
        #![trigger rhs.contains_key(k)]
        rhs.contains_key(k) ==> {
            &&& r[k].covers@ == dedup(covers_or_empty(lhs, k) + rhs[k].covers@)
            &&& r[k].chapters@ == chapters_or_empty(lhs, k).union_prefer_right(rhs[k].chapters@)
        }
}

/// Removes runs of equal neighbours, keeping the first of each run.
pub fn dedup_ids(v: &Vec<u128>) -> (r: Vec<u128>)
    ensures
        r@ == dedup(v@),
{
    let mut r: Vec<u128> = Vec::new();
    let mut i: usize = 0;
    assert(v@.take(0) =~= Seq::<u128>::empty());
    while i < v.len()
        invariant
            0 <= i <= v@.len(),
            r@ == dedup(v@.take(i as int)),
        decreases v@.len() - i,
    {
        let ghost t = v@.take(i + 1);
        assert(t.drop_last() =~= v@.take(i as int));
        if i == 0 || v[i] != v[i - 1] {
            r.push(v[i]);
            if i == 0 {
                assert(t =~= seq![v@[0]]);
                assert(r@ =~= t);
            }
        }
        i = i + 1;
    }
    assert(v@.take(v@.len() as int) =~= v@);
    r
}

fn clone_names(v: &Vec<String>) -> (r: Vec<String>)
    ensures
        r@ == v@,
{
    let mut r: Vec<String> = Vec::new();
    let mut i: usize = 0;
    while i < v.len()
        invariant
            0 <= i <= v@.len(),
            r@ == v@.take(i as int),
        decreases v@.len() - i,
    {
        r.push(v[i].clone());
        i = i + 1;
        assert(r@ =~= v@.take(i as int));
    }
    assert(v@.take(v@.len() as int) =~= v@);
    r
}

impl Clone for PChapterObject {
    fn clone(&self) -> (r: Self)
        ensures
            r.data@ == self.data@,
            r.data_saver@ == self.data_saver@,
    {
        PChapterObject { data: clone_names(&self.data), data_saver: clone_names(&self.data_saver) }
    }
}

impl PChapterObject {
    /// A chapter with no image.
    pub fn new() -> (r: PChapterObject)
        ensures
            r.data@.len() == 0,
            r.data_saver@.len() == 0,
    {
        PChapterObject { data: Vec::new(), data_saver: Vec::new() }
    }
}

impl PMangaObject {
    /// A manga with no cover and no chapter.
    pub fn new() -> (r: PMangaObject)
        ensures
            r.covers@.len() == 0,
            r.chapters@ == Map::<u128, PChapterObject>::empty(),
    {
        PMangaObject { covers: Vec::new(), chapters: HashMap::new() }
    }
}

impl Clone for PackageContentsOptions {
    fn clone(&self) -> (r: Self)
        ensures
            r == *self,
    {
        PackageContentsOptions {
            directories: match &self.directories {
                Some(d) => Some(d.clone()),
                None => None,
            },
            zstd_compressed_images: self.zstd_compressed_images,
            zstd_compressed_metadata: self.zstd_compressed_metadata,
        }
    }
}

impl PackageContentsOptions {
    /// Options of a package written without compression of its entries.
    pub fn new() -> (r: PackageContentsOptions)
        ensures
            r.directories is None,
            !r.zstd_compressed_images,
            !r.zstd_compressed_metadata,
    {
        PackageContentsOptions {
            directories: None,
            zstd_compressed_images: false,
            zstd_compressed_metadata: false,
        }
    }

    /// Options that record the layout `value`.
    pub fn from_dirs(value: DirsOptions) -> (r: PackageContentsOptions)
        ensures
            r.directories == Some(value),
            !r.zstd_compressed_images,
            !r.zstd_compressed_metadata,
    {
        PackageContentsOptions {
            directories: Some(value),
            zstd_compressed_images: false,
            zstd_compressed_metadata: false,
        }
    }

    /// The layout recorded in the options, or the default layout.
    pub fn get_dirs(&self) -> (r: DirsOptions)
        ensures
            self.directories is Some ==> r == self.directories.unwrap(),
            self.directories is None ==> (r.data_dir@, r.chapters@, r.mangas@, r.covers@)
                == crate::dirs::spec_new_from_data_dir(Seq::empty()),
    {
        match &self.directories {
            Some(d) => d.clone(),
            None => DirsOptions::default(),
        }
    }
}

impl Default for PackageContents {
    /// An empty package.
    fn default() -> (r: PackageContents)
        ensures
            r.options is None,
            r.data@ == Map::<u128, PMangaObject>::empty(),
    {
        PackageContents::new()
    }
}

impl PackageContents {
    /// An empty package.
    pub fn new() -> (r: PackageContents)
        ensures
            r.options is None,
            r.data@ == Map::<u128, PMangaObject>::empty(),
    {
        PackageContents { options: None, data: HashMap::new() }
    }

    /// The options of the package, or options without compression.
    pub fn get_options(&self) -> (r: PackageContentsOptions)
        ensures
            self.options is Some ==> r == self.options.unwrap(),
            self.options is None ==> r.directories is None && !r.zstd_compressed_images
                && !r.zstd_compressed_metadata,
    {
        match &self.options {
            Some(o) => o.clone(),
            None => PackageContentsOptions::new(),
        }
    }

    /// Merges `rhs` into this package (see `merged`); the options stay.
    pub fn add_assign(&mut self, rhs: PackageContents)
        ensures
            merged(old(self).data@, rhs.data@, final(self).data@),
            final(self).options == old(self).options,
    {
        let mut rhs_data = rhs.data;
        let keys = collect_keys(&rhs_data);
        let ghost lhs0 = self.data@;
        let ghost rhs0 = rhs_data@;
        let mut i: usize = 0;
        while i < keys.len()
            invariant
                keys@.no_duplicates(),
                keys@.to_set() == rhs0.dom(),
                0 <= i <= keys@.len(),
                self.options == old(self).options,
                lhs0 == old(self).data@,
                rhs_data@ == rhs0.remove_keys(keys@.take(i as int).to_set()),
                self.data@.dom() == lhs0.dom().union(keys@.take(i as int).to_set()),
                forall|k: u128|
                    #[trigger] self.data@.contains_key(k) && !keys@.take(i as int).contains(k)
                        ==> self.data@[k] == lhs0[k],
                forall|k: u128|
                    #![trigger keys@.take(i as int).contains(k)]
                    keys@.take(i as int).contains(k) ==> {
                        &&& self.data@[k].covers@ == dedup(covers_or_empty(lhs0, k) + rhs0[k].covers@)
                        &&& self.data@[k].chapters@ == chapters_or_empty(lhs0, k).union_prefer_right(
                            rhs0[k].chapters@,
                        )
                    },
            decreases keys@.len() - i,
        {
            let k = keys[i];
            let ghost taken = keys@.take(i as int);
            assert(keys@.take(i + 1) =~= taken.push(k));
            proof {
                taken.lemma_push_to_set_commute(k);
            }
            assert(keys@.take(i + 1)[i as int] == k);
            assert(!taken.contains(k)) by {
                if taken.contains(k) {
                    let j = choose|j: int| 0 <= j < taken.len() && taken[j] == k;
                    assert(keys@[j] == keys@[i as int]);
                }
            }
            assert(keys@.contains(k));
            assert(rhs0.contains_key(k));
            assert(rhs_data@.contains_key(k));
            let incoming = rhs_data.remove(&k).unwrap();
            let ghost rest = rhs_data@;
            assert(incoming == rhs0[k]);
            let mut current = match self.data.remove(&k) {
                Some(m) => m,
                None => PMangaObject::new(),
            };
            assert(current.covers@ == covers_or_empty(lhs0, k));
            assert(current.chapters@ == chapters_or_empty(lhs0, k));
            let ghost before_chapters = current.chapters@;
            let mut incoming = incoming;
            let mut joined = current.covers;
            joined.append(&mut incoming.covers);
            let covers = dedup_ids(&joined);
            let ckeys = collect_keys(&incoming.chapters);
            let mut chapters = current.chapters;
            let mut incoming_chapters = incoming.chapters;
            let ghost inc0 = incoming_chapters@;
            let mut j: usize = 0;
            while j < ckeys.len()
                invariant
                    ckeys@.no_duplicates(),
                    ckeys@.to_set() == inc0.dom(),
                    0 <= j <= ckeys@.len(),
                    incoming_chapters@ == inc0.remove_keys(ckeys@.take(j as int).to_set()),
                    chapters@ == before_chapters.union_prefer_right(
                        inc0.restrict(ckeys@.take(j as int).to_set()),
                    ),
                decreases ckeys@.len() - j,
            {
                let ck = ckeys[j];
                let ghost taken_c = ckeys@.take(j as int);
                assert(ckeys@.take(j + 1) =~= taken_c.push(ck));
                proof {
                    taken_c.lemma_push_to_set_commute(ck);
                }
                assert(!taken_c.contains(ck)) by {
                    if taken_c.contains(ck) {
                        let q = choose|q: int| 0 <= q < taken_c.len() && taken_c[q] == ck;
                        assert(ckeys@[q] == ckeys@[j as int]);
                    }
                }
                assert(ckeys@.contains(ck));
                assert(incoming_chapters@.contains_key(ck));
                let images = incoming_chapters.remove(&ck).unwrap();
                chapters.insert(ck, images);
                assert(incoming_chapters@ =~= inc0.remove_keys(ckeys@.take(j + 1).to_set()));
                assert(chapters@ =~= before_chapters.union_prefer_right(
                    inc0.restrict(ckeys@.take(j + 1).to_set()),
                ));
                j = j + 1;
            }
            assert(ckeys@.take(ckeys@.len() as int) =~= ckeys@);
            assert(inc0.restrict(ckeys@.to_set()) =~= inc0);
            self.data.insert(k, PMangaObject { covers, chapters });
            assert(rhs_data@ =~= rhs0.remove_keys(keys@.take(i + 1).to_set()));
            assert(self.data@.dom() =~= lhs0.dom().union(keys@.take(i + 1).to_set()));
            assert(self.data@[k].covers@ == dedup(covers_or_empty(lhs0, k) + rhs0[k].covers@));
            assert forall|q: u128|
                #![trigger keys@.take(i + 1).contains(q)]
                keys@.take(i + 1).contains(q) implies {
                    &&& self.data@[q].covers@ == dedup(covers_or_empty(lhs0, q) + rhs0[q].covers@)
                    &&& self.data@[q].chapters@ == chapters_or_empty(lhs0, q).union_prefer_right(
                        rhs0[q].chapters@,
                    )
                } by {
                if q != k {
                    let t1 = keys@.take(i + 1);
                    let w = choose|w: int| 0 <= w < t1.len() && #[trigger] t1[w] == q;
                    assert(w < i);
                    assert(taken[w] == q);
                    assert(taken.contains(q));
                }
            }
            assert forall|q: u128|
                #[trigger] self.data@.contains_key(q) && !keys@.take(i + 1).contains(q)
                    implies self.data@[q] == lhs0[q] by {
                assert(q != k);
                assert(!taken.contains(q)) by {
                    if taken.contains(q) {
                        let w = choose|w: int| 0 <= w < taken.len() && taken[w] == q;
                        assert(keys@.take(i + 1)[w] == q);
                    }
                }
            }
            i = i + 1;
        }
        assert(keys@.take(keys@.len() as int) =~= keys@);
        assert forall|k: u128| #![trigger rhs0.contains_key(k)] rhs0.contains_key(k) implies {
            &&& self.data@[k].covers@ == dedup(covers_or_empty(lhs0, k) + rhs0[k].covers@)
            &&& self.data@[k].chapters@ == chapters_or_empty(lhs0, k).union_prefer_right(
                rhs0[k].chapters@,
            )
        } by {
            assert(keys@.to_set().contains(k));
            assert(keys@.take(i as int).contains(k));
        }
        assert forall|k: u128|
            #[trigger] self.data@.contains_key(k) && !rhs0.contains_key(k) implies self.data@[k]
            == lhs0[k] by {
            if keys@.take(i as int).contains(k) {
                assert(keys@.to_set().contains(k));
            }
        }
    }

    /// This package merged with `rhs` (see `add_assign`).
    pub fn add(self, rhs: PackageContents) -> (r: PackageContents)
        ensures
            merged(self.data@, rhs.data@, r.data@),
            r.options == self.options,
    {
        let mut s = self;
        s.add_assign(rhs);
        s
    }
}

/// The keys of a table with integer keys, each once.
pub fn collect_keys<V>(m: &HashMap<u128, V>) -> (r: Vec<u128>)
    ensures
        r@.no_duplicates(),
        r@.to_set() == m@.dom(),
{
    let mut r: Vec<u128> = Vec::new();
    let ghost s = m.keys().remaining();
    for k in it: m.keys()
        invariant
            it.seq() == s,
            s.unref().to_set() == m@.dom(),
            s.no_duplicates(),
            s.len() == m@.dom().len(),
            r@.len() == it.index(),
            forall|j: int| 0 <= j < it.index() ==> r@[j] == *s[j],
    {
        r.push(*k);
    }
    assert(r@ =~= s.unref());
    assert(r@.no_duplicates()) by {
        assert forall|a: int, b: int| 0 <= a < r@.len() && 0 <= b < r@.len() && a != b implies r@[a] != r@[b] by {
            assert(s[a] != s[b]);
        }
    }
    r
}

/// The manga that a list of relationships names first, if any.
pub open spec fn manga_of<P>(rels: Seq<crate::model::Relationship<P>>) -> Option<u128> {
    match first_of_type(rels, RelationshipType::Manga) {
        Some(m) => Some(m.id),
        None => None,
    }
}

/// The ids of the covers of `s` that belong to manga `m`, in order.
pub open spec fn covers_of(s: Seq<CoverEntry>, m: u128) -> Seq<u128>
    decreases s.len(),
{
    if s.len() == 0 {
        Seq::empty()
    } else if manga_of(s.last().relationships@) == Some(m) {
        covers_of(s.drop_last(), m).push(s.last().id)
    } else {
        covers_of(s.drop_last(), m)
    }
}

/// The chapters of `s` that belong to manga `m`, with their images; a
/// later chapter of the same id wins.
pub open spec fn chapters_of(s: Seq<(ChapterEntry, ChapterImagesData)>, m: u128) -> Map<
    u128,
    PChapterObject,
>
    decreases s.len(),
{
    if s.len() == 0 {
        Map::empty()
    } else if manga_of(s.last().0.relationships@) == Some(m) {
        chapters_of(s.drop_last(), m).insert(
            s.last().0.id,
            PChapterObject { data: s.last().1.data, data_saver: s.last().1.data_saver },
        )
    } else {
        chapters_of(s.drop_last(), m)
    }
}

/// Whether a chapter of `s` belongs to manga `m`.
pub open spec fn has_chapters(s: Seq<(ChapterEntry, ChapterImagesData)>, m: u128) -> bool {
    exists|i: int| 0 <= i < s.len() && manga_of(#[trigger] s[i].0.relationships@) == Some(m)
}

/// Whether one of the mangas has id `m`.
pub open spec fn lists_manga(s: Seq<MangaEntry>, m: u128) -> bool {
    exists|i: int| 0 <= i < s.len() && #[trigger] s[i].id == m
}

/// Whether manga `m` goes into a package assembled from these lists: it is
/// listed, has a cover and has a chapter.
pub open spec fn assembled_has(
    covers: Seq<CoverEntry>,
    chapters: Seq<(ChapterEntry, ChapterImagesData)>,
    mangas: Seq<MangaEntry>,
    m: u128,
) -> bool {
    lists_manga(mangas, m) && covers_of(covers, m).len() > 0 && has_chapters(chapters, m)
}

proof fn lemma_has_chapters_step(s: Seq<(ChapterEntry, ChapterImagesData)>, m: u128)
    requires
        s.len() > 0,
    ensures
        has_chapters(s, m) == (has_chapters(s.drop_last(), m) || manga_of(
            s.last().0.relationships@,
        ) == Some(m)),
{
    if has_chapters(s, m) {
        let i = choose|i: int| 0 <= i < s.len() && manga_of(#[trigger] s[i].0.relationships@) == Some(m);
        if i < s.len() - 1 {
            assert(s.drop_last()[i] == s[i]);
        }
    }
    if has_chapters(s.drop_last(), m) {
        let i = choose|i: int|
            0 <= i < s.drop_last().len() && manga_of(#[trigger] s.drop_last()[i].0.relationships@)
                == Some(m);
        assert(s[i] == s.drop_last()[i]);
    }
}

proof fn lemma_no_chapters(s: Seq<(ChapterEntry, ChapterImagesData)>, m: u128)
    requires
        !has_chapters(s, m),
    ensures
        chapters_of(s, m) == Map::<u128, PChapterObject>::empty(),
    decreases s.len(),
{
    if s.len() > 0 {
        lemma_has_chapters_step(s, m);
        lemma_no_chapters(s.drop_last(), m);
    } else {
        assert(chapters_of(s, m) =~= Map::<u128, PChapterObject>::empty());
    }
}

/// The manga named first in the relationships.
fn manga_id_of<P>(rels: &Vec<crate::model::Relationship<P>>) -> (r: Option<u128>)
    ensures
        r == manga_of(rels@),
{
    match find_first_relationships(rels, RelationshipType::Manga) {
        Some(m) => Some(m.id),
        None => None,
    }
}

impl PackageContents {
    /// Assembles the table of contents of what is stored: each listed manga
    /// that has a cover and a chapter, with all of its covers and chapters.
    pub fn from_pulled(
        covers: &Vec<CoverEntry>,
        chapters: Vec<(ChapterEntry, ChapterImagesData)>,
        mangas: &Vec<MangaEntry>,
    ) -> (r: PackageContents)
        ensures
            r.options is None,
            forall|m: u128| #[trigger]
                r.data@.contains_key(m) <==> assembled_has(covers@, chapters@, mangas@, m),
            forall|m: u128| #[trigger]
                r.data@.contains_key(m) ==> r.data@[m].covers@ == covers_of(covers@, m)
                    && r.data@[m].chapters@ == chapters_of(chapters@, m),
    {
        let mut cover_acc: HashMap<u128, Vec<u128>> = HashMap::new();
        let mut i: usize = 0;
        assert(covers@.take(0) =~= Seq::<CoverEntry>::empty());
        while i < covers.len()
            invariant
                0 <= i <= covers@.len(),
                forall|m: u128| #[trigger]
                    cover_acc@.contains_key(m) <==> covers_of(covers@.take(i as int), m).len() > 0,
                forall|m: u128| #[trigger]
                    cover_acc@.contains_key(m) ==> cover_acc@[m]@ == covers_of(
                        covers@.take(i as int),
                        m,
                    ),
            decreases covers@.len() - i,
        {
            let ghost t = covers@.take(i + 1);
            assert(t.drop_last() =~= covers@.take(i as int));
            let ghost before = cover_acc@;
            if let Some(m) = manga_id_of(&covers[i].relationships) {
                let mut list = match cover_acc.remove(&m) {
                    Some(l) => l,
                    None => Vec::new(),
                };
                assert(list@ =~= covers_of(covers@.take(i as int), m));
                list.push(covers[i].id);
                cover_acc.insert(m, list);
                assert forall|q: u128| #[trigger] cover_acc@.contains_key(q) <==> covers_of(t, q).len() > 0 by {
                    if q != m {
                        assert(covers_of(t, q) == covers_of(covers@.take(i as int), q));
                    }
                }
            }
            i = i + 1;
        }
        assert(covers@.take(covers@.len() as int) =~= covers@);
        let ghost all_chapters = chapters@;
        let mut chapter_acc: HashMap<u128, HashMap<u128, PChapterObject>> = HashMap::new();
        assert(all_chapters.take(0) =~= Seq::<(ChapterEntry, ChapterImagesData)>::empty());
        for pair in it: chapters
            invariant
                it.seq() == all_chapters,
                forall|m: u128| #[trigger]
                    chapter_acc@.contains_key(m) <==> has_chapters(all_chapters.take(it.index() as int), m),
                forall|m: u128| #[trigger]
                    chapter_acc@.contains_key(m) ==> chapter_acc@[m]@ == chapters_of(
                        all_chapters.take(it.index() as int),
                        m,
                    ),
        {
            let ghost k = it.index();
            let ghost t = all_chapters.take(k + 1);
            assert(t.drop_last() =~= all_chapters.take(k as int));
            assert(t.last() == pair);
            proof {
                lemma_has_chapters_step(t, 0);
                assert forall|q: u128| has_chapters(t, q) == (has_chapters(t.drop_last(), q) || manga_of(
                    t.last().0.relationships@,
                ) == Some(q)) by {
                    lemma_has_chapters_step(t, q);
                }
            }
            let (chapter, images) = pair;
            if let Some(m) = manga_id_of(&chapter.relationships) {
                proof {
                    if !has_chapters(all_chapters.take(k as int), m) {
                        lemma_no_chapters(all_chapters.take(k as int), m);
                    }
                }
                let mut table = match chapter_acc.remove(&m) {
                    Some(tb) => tb,
                    None => HashMap::new(),
                };
                assert(table@ =~= chapters_of(all_chapters.take(k as int), m));
                table.insert(chapter.id, PChapterObject { data: images.data, data_saver: images.data_saver });
                chapter_acc.insert(m, table);
                assert forall|q: u128| #[trigger] chapter_acc@.contains_key(q) <==> has_chapters(t, q) by {
                }
                assert(chapter_acc@[m]@ =~= chapters_of(t, m));
            }
        }
        assert(all_chapters.take(all_chapters.len() as int) =~= all_chapters);
        let mut data: HashMap<u128, PMangaObject> = HashMap::new();
        let mut j: usize = 0;
        while j < mangas.len()
            invariant
                0 <= j <= mangas@.len(),
                forall|m: u128| #[trigger]
                    cover_acc@.contains_key(m) <==> covers_of(covers@, m).len() > 0 && !lists_manga(
                        mangas@.take(j as int),
                        m,
                    ),
                forall|m: u128| #[trigger]
                    cover_acc@.contains_key(m) ==> cover_acc@[m]@ == covers_of(covers@, m),
                forall|m: u128| #[trigger]
                    chapter_acc@.contains_key(m) <==> has_chapters(all_chapters, m) && !(lists_manga(
                        mangas@.take(j as int),
                        m,
                    ) && covers_of(covers@, m).len() > 0),
                forall|m: u128| #[trigger]
                    chapter_acc@.contains_key(m) ==> chapter_acc@[m]@ == chapters_of(all_chapters, m),
                forall|m: u128| #[trigger]
                    data@.contains_key(m) <==> assembled_has(
                        covers@,
                        all_chapters,
                        mangas@.take(j as int),
                        m,
                    ),
                forall|m: u128| #[trigger]
                    data@.contains_key(m) ==> data@[m].covers@ == covers_of(covers@, m)
                        && data@[m].chapters@ == chapters_of(all_chapters, m),
            decreases mangas@.len() - j,
        {
            let ghost pre = mangas@.take(j as int);
            let ghost t = mangas@.take(j + 1);
            assert(t.drop_last() =~= pre);
            let id = mangas[j].id;
            assert(t[j as int].id == id);
            assert forall|q: u128| lists_manga(t, q) == (lists_manga(pre, q) || q == id) by {
                if lists_manga(t, q) {
                    let a = choose|a: int| 0 <= a < t.len() && #[trigger] t[a].id == q;
                    if a < j {
                        assert(pre[a] == t[a]);
                    }
                }
                if lists_manga(pre, q) {
                    let a = choose|a: int| 0 <= a < pre.len() && #[trigger] pre[a].id == q;
                    assert(t[a] == pre[a]);
                }
            }
            if let Some(cv) = cover_acc.remove(&id) {
                if let Some(ch) = chapter_acc.remove(&id) {
                    data.insert(id, PMangaObject { covers: cv, chapters: ch });
                }
            }
            j = j + 1;
        }
        assert(mangas@.take(mangas@.len() as int) =~= mangas@);
        PackageContents { options: None, data }
    }
}

impl PackageContents {
    /// The images of chapter `id`, from a manga that holds it, if any does.
    pub fn chapter_images(&self, id: u128) -> (r: Option<PChapterObject>)
        ensures
            r is None <==> forall|k: u128|
                !(#[trigger] self.data@.contains_key(k) && self.data@[k].chapters@.contains_key(id)),
            r matches Some(c) ==> exists|k: u128|
                #[trigger] self.data@.contains_key(k) && self.data@[k].chapters@.contains_key(id)
                    && c.data@ == self.data@[k].chapters@[id].data@ && c.data_saver@
                    == self.data@[k].chapters@[id].data_saver@,
    {
        let keys = collect_keys(&self.data);
        let mut i: usize = 0;
        while i < keys.len()
            invariant
                keys@.to_set() == self.data@.dom(),
                0 <= i <= keys@.len(),
                forall|j: int|
                    0 <= j < i ==> !self.data@[#[trigger] keys@[j]].chapters@.contains_key(id),
            decreases keys@.len() - i,
        {
            let k = keys[i];
            assert(keys@.contains(k));
            let m = self.data.get(&k).unwrap();
            match m.chapters.get(&id) {
                Some(c) => {
                    let r = c.clone();
                    assert(self.data@.contains_key(k) && self.data@[k].chapters@.contains_key(id));
                    return Some(r);
                },
                None => {},
            }
            i = i + 1;
        }
        assert forall|k: u128|
            !(#[trigger] self.data@.contains_key(k) && self.data@[k].chapters@.contains_key(id)) by {
            if self.data@.contains_key(k) {
                assert(keys@.to_set().contains(k));
                let j = choose|j: int| 0 <= j < keys@.len() && keys@[j] == k;
                assert(!self.data@[keys@[j]].chapters@.contains_key(id));
            }
        }
        None
    }
}

} // verus!
