//! Telling what an entry of a package is from its path.

use vstd::prelude::*;
use vstd::string::*;

use crate::contents::PackageContents;
use crate::dirs::{
    spec_chapters_add, spec_cover_images_add, spec_covers_add, spec_mangas_add,
    spec_new_from_data_dir, DirsOptions,
};
use crate::error::ManagerError;
use crate::contents::collect_keys;
use crate::ids::{hyphenated, uuid_parse, uuid_parsed, uuid_text};
use crate::paths::{components, path_components};
use crate::model::Mode;
use crate::regex_calls::{capture, compile_regex, is_match, regex_capture, regex_is_match, regex_is_valid, CompiledRegex};

verus! {

/// The name of a manga's metadata file, with the manga's id as a group.
pub open spec fn manga_entry_pattern() -> Seq<char> {
    "(?P<manga_id>[0-9a-f]{8}-[0-9a-f]{4}-[0-9a-f]{4}-[0-9a-f]{4}-[0-9a-f]{12}).cbor"@
}

/// The path of a chapter's metadata file, below the chapters directory.
pub open spec fn chapter_entry_pattern() -> Seq<char> {
    "(?P<chapter_id>[0-9a-f]{8}-[0-9a-f]{4}-[0-9a-f]{4}-[0-9a-f]{4}-[0-9a-f]{12})/data.cbor"@
}

/// The name of a cover's metadata file.
pub open spec fn cover_entry_pattern() -> Seq<char> {
    "(?P<cover_id>[0-9a-f]{8}-[0-9a-f]{4}-[0-9a-f]{4}-[0-9a-f]{4}-[0-9a-f]{12}).cbor"@
}

/// The name of a cover image.
pub open spec fn cover_image_entry_pattern() -> Seq<char> {
    "(?P<filename>\\w*.*)"@
}

/// The path of a chapter image, below the chapters directory.
pub open spec fn chapter_image_entry_pattern() -> Seq<char> {
    "(?P<chapter_id>[0-9a-f]{8}-[0-9a-f]{4}-[0-9a-f]{4}-[0-9a-f]{4}-[0-9a-f]{12})/(?P<mode>data|data-saver)/(?P<filename>\\w*.*)"@
}

/// The patterns that entries are told apart by.
pub struct EntryPatterns {
    pub manga: Seq<char>,
    pub chapter: Seq<char>,
    pub cover: Seq<char>,
    pub cover_image: Seq<char>,
    pub chapter_image: Seq<char>,
}

/// The patterns of a layout: each entry pattern placed in its directory.
pub open spec fn layout_patterns(d: DirsOptions) -> EntryPatterns {
    EntryPatterns {
        manga: spec_mangas_add(d, manga_entry_pattern()),
        chapter: spec_chapters_add(d, chapter_entry_pattern()),
        cover: spec_covers_add(d, cover_entry_pattern()),
        cover_image: spec_cover_images_add(d, cover_image_entry_pattern()),
        chapter_image: spec_chapters_add(d, chapter_image_entry_pattern()),
    }
}

/// `d` is the layout a package records, or the default layout when it
/// records none.
pub open spec fn package_layout(c: PackageContents, d: DirsOptions) -> bool {
    if c.options matches Some(o) && o.directories is Some {
        d == c.options.unwrap().directories.unwrap()
    } else {
        (d.data_dir@, d.chapters@, d.mangas@, d.covers@) == spec_new_from_data_dir(Seq::empty())
    }
}

/// Whether every pattern compiles.
pub open spec fn patterns_valid(p: EntryPatterns) -> bool {
    &&& regex_is_valid(p.chapter)
    &&& regex_is_valid(p.manga)
    &&& regex_is_valid(p.cover)
    &&& regex_is_valid(p.cover_image)
    &&& regex_is_valid(p.chapter_image)
}

/// The compiled patterns that entries of a package are told apart by.
pub struct EntryRegexes {
    manga: CompiledRegex,
    chapter: CompiledRegex,
    cover: CompiledRegex,
    cover_image: CompiledRegex,
    chapter_image: CompiledRegex,
}

impl View for EntryRegexes {
    type V = EntryPatterns;

    closed spec fn view(&self) -> EntryPatterns {
        EntryPatterns {
            manga: self.manga@,
            chapter: self.chapter@,
            cover: self.cover@,
            cover_image: self.cover_image@,
            chapter_image: self.chapter_image@,
        }
    }
}

/// What an entry of a package holds.
#[derive(Debug)]
pub enum EntryKind {
    Manga,
    Chapter,
    Cover,
    CoverImage { filename: String },
    ChapterImage { id: u128, filename: String, mode: Mode },
    Any,
}

/// The image quality that a directory name stands for.
pub open spec fn mode_named(name: Option<Seq<char>>) -> Option<Mode> {
    if name == Some("data"@) {
        Some(Mode::Data)
    } else if name == Some("data-saver"@) {
        Some(Mode::DataSaver)
    } else {
        None
    }
}

/// The layout that a package's paths follow.
fn layout(contents: &PackageContents) -> (d: DirsOptions)
    ensures
        package_layout(*contents, d),
{
    match &contents.options {
        Some(o) => o.get_dirs(),
        None => DirsOptions::default(),
    }
}

impl PackageContents {
    /// The layout that the package's paths follow: the one it records, or
    /// the default layout.
    pub fn layout(&self) -> (d: DirsOptions)
        ensures
            package_layout(*self, d),
    {
        layout(self)
    }
}

fn compile_or_fail(pattern: &str) -> (r: Result<CompiledRegex, ManagerError>)
    ensures
        r is Ok <==> regex_is_valid(pattern@),
        r matches Ok(c) ==> c@ == pattern@,
        r matches Err(e) ==> e is Regex,
{
    match compile_regex(pattern) {
        Ok(c) => Ok(c),
        Err(e) => Err(ManagerError::Regex(e)),
    }
}

impl EntryRegexes {
    /// Compiles the patterns of the package's layout; fails with the first
    /// pattern that does not compile.
    pub fn new(contents: &PackageContents) -> (r: Result<EntryRegexes, ManagerError>)
        ensures
            r matches Ok(x) ==> exists|d: DirsOptions|
                #[trigger] package_layout(*contents, d) && x@ == layout_patterns(d),
            r is Ok <==> forall|d: DirsOptions|
                #[trigger] package_layout(*contents, d) ==> patterns_valid(layout_patterns(d)),
            r matches Err(e) ==> e is Regex,
    {
        let d = layout(contents);
        let chapter_entry = "(?P<chapter_id>[0-9a-f]{8}-[0-9a-f]{4}-[0-9a-f]{4}-[0-9a-f]{4}-[0-9a-f]{12})/data.cbor";
        let manga_entry = "(?P<manga_id>[0-9a-f]{8}-[0-9a-f]{4}-[0-9a-f]{4}-[0-9a-f]{4}-[0-9a-f]{12}).cbor";
        let cover_entry = "(?P<cover_id>[0-9a-f]{8}-[0-9a-f]{4}-[0-9a-f]{4}-[0-9a-f]{4}-[0-9a-f]{12}).cbor";
        let cover_image_entry = "(?P<filename>\\w*.*)";
        let chapter_image_entry = "(?P<chapter_id>[0-9a-f]{8}-[0-9a-f]{4}-[0-9a-f]{4}-[0-9a-f]{4}-[0-9a-f]{12})/(?P<mode>data|data-saver)/(?P<filename>\\w*.*)";
        let ghost p = layout_patterns(d);
        proof {
            lemma_layouts_agree(*contents, d);
        }
        let chapter = compile_or_fail(d.chapters_add(chapter_entry).as_str())?;
        let manga = compile_or_fail(d.mangas_add(manga_entry).as_str())?;
        let cover = compile_or_fail(d.covers_add(cover_entry).as_str())?;
        let cover_image = compile_or_fail(d.cover_images_add(cover_image_entry).as_str())?;
        let chapter_image = compile_or_fail(d.chapters_add(chapter_image_entry).as_str())?;
        let r = EntryRegexes { manga, chapter, cover, cover_image, chapter_image };
        assert(r@ == p);
        Ok(r)
    }

    /// What the entry at `path` holds: a manga, chapter or cover by its
    /// metadata file; a chapter image when its id reads as an id and its
    /// directory names a quality; a cover image; anything else.
    pub fn entry_kind(&self, path: &str) -> (r: EntryKind)
        ensures
            regex_is_match(self@.manga, path@) ==> r is Manga,
            !regex_is_match(self@.manga, path@) && regex_is_match(self@.chapter, path@) ==> r is Chapter,
            !regex_is_match(self@.manga, path@) && !regex_is_match(self@.chapter, path@)
                && regex_is_match(self@.cover, path@) ==> r is Cover,
            !regex_is_match(self@.manga, path@) && !regex_is_match(self@.chapter, path@)
                && !regex_is_match(self@.cover, path@) ==> chapter_or_cover_image(self@, path@, r),
    {
        if is_match(&self.manga, path) {
            return EntryKind::Manga;
        }
        if is_match(&self.chapter, path) {
            return EntryKind::Chapter;
        }
        if is_match(&self.cover, path) {
            return EntryKind::Cover;
        }
        let filename_group = "filename";
        let id_group = "chapter_id";
        let mode_group = "mode";
        let data_dir = String::from_str("data");
        let data_saver_dir = String::from_str("data-saver");
        let image = match capture(&self.chapter_image, path, filename_group) {
            None => None,
            Some(filename) => match capture(&self.chapter_image, path, id_group) {
                None => None,
                Some(id_text) => match uuid_parse(id_text.as_str()) {
                    None => None,
                    Some(id) => match capture(&self.chapter_image, path, mode_group) {
                        None => None,
                        Some(m) => {
                            if m == data_dir {
                                Some((filename, id, Mode::Data))
                            } else if m == data_saver_dir {
                                Some((filename, id, Mode::DataSaver))
                            } else {
                                None
                            }
                        },
                    },
                },
            },
        };
        match image {
            Some((filename, id, mode)) => EntryKind::ChapterImage { id, filename, mode },
            None => match capture(&self.cover_image, path, filename_group) {
                Some(filename) => EntryKind::CoverImage { filename },
                None => EntryKind::Any,
            },
        }
    }
}

/// The chapter image that the pattern reads from a path: its file name, its
/// chapter id and its quality, when all three are there.
pub open spec fn chapter_image_read(p: EntryPatterns, path: Seq<char>) -> Option<
    (Seq<char>, u128, Mode),
> {
    let pat = p.chapter_image;
    match regex_capture(pat, path, "filename"@) {
        None => None,
        Some(f) => match regex_capture(pat, path, "chapter_id"@) {
            None => None,
            Some(t) => match uuid_parsed(t) {
                None => None,
                Some(id) => match mode_named(regex_capture(pat, path, "mode"@)) {
                    None => None,
                    Some(m) => Some((f, id, m)),
                },
            },
        },
    }
}

/// The kind of an entry that no metadata pattern matches: a chapter image
/// when one is read, else a cover image when its pattern names a file,
/// else anything.
pub open spec fn chapter_or_cover_image(p: EntryPatterns, path: Seq<char>, r: EntryKind) -> bool {
    match chapter_image_read(p, path) {
        Some((f, id, m)) => r matches EntryKind::ChapterImage { id: rid, filename, mode } && rid == id
            && filename@ == f && mode == m,
        None => match regex_capture(p.cover_image, path, "filename"@) {
            Some(f) => r matches EntryKind::CoverImage { filename } && filename@ == f,
            None => r is Any,
        },
    }
}

proof fn lemma_layouts_agree(c: PackageContents, d: DirsOptions)
    requires
        package_layout(c, d),
    ensures
        forall|e: DirsOptions| #[trigger]
            package_layout(c, e) ==> layout_patterns(e) == layout_patterns(d),
{
}

/// Two paths name the same file: they have the same components, which is
/// how `Path` compares.
pub open spec fn same_path(a: Seq<char>, b: Seq<char>) -> bool {
    components(a) == components(b)
}

/// Whether two paths name the same file.
pub fn same_path_exec(a: &str, b: &str) -> (r: bool)
    ensures
        r == same_path(a@, b@),
{
    let x = path_components(a);
    let y = path_components(b);
    if x.len() != y.len() {
        return false;
    }
    let mut i: usize = 0;
    while i < x.len()
        invariant
            0 <= i <= x@.len(),
            x@.len() == y@.len(),
            x@.len() == components(a@).len(),
            y@.len() == components(b@).len(),
            forall|j: int| 0 <= j < x@.len() ==> #[trigger] x@[j]@ == components(a@)[j],
            forall|j: int| 0 <= j < y@.len() ==> #[trigger] y@[j]@ == components(b@)[j],
            forall|j: int| 0 <= j < i ==> components(a@)[j] == components(b@)[j],
        decreases x@.len() - i,
    {
        if x[i] != y[i] {
            assert(components(a@)[i as int] != components(b@)[i as int]);
            return false;
        }
        i = i + 1;
    }
    assert(components(a@) =~= components(b@));
    true
}

/// The entry name of the metadata of manga or cover `id`.
pub open spec fn metadata_entry_name(id: u128) -> Seq<char> {
    hyphenated(id) + ".cbor"@
}

/// The entry name of the metadata of chapter `id`, below the chapters
/// directory.
pub open spec fn chapter_entry_name(id: u128) -> Seq<char> {
    hyphenated(id) + "/data.cbor"@
}

/// Whether `path` is the metadata entry of a manga of the package, in
/// layout `d`.
pub open spec fn names_manga(c: PackageContents, d: DirsOptions, path: Seq<char>) -> bool {
    exists|k: u128| #[trigger] c.data@.contains_key(k) && same_path(path, spec_mangas_add(d, metadata_entry_name(k)))
}

/// Whether `path` is the metadata entry of a cover of the package, in
/// layout `d`.
pub open spec fn names_cover(c: PackageContents, d: DirsOptions, path: Seq<char>) -> bool {
    exists|k: u128, i: int|
        #[trigger] c.data@.contains_key(k) && 0 <= i < c.data@[k].covers@.len() && same_path(
            path,
            spec_covers_add(d, metadata_entry_name(#[trigger] c.data@[k].covers@[i])),
        )
}

/// Whether `path` is the metadata entry of a chapter of the package, in
/// layout `d`.
pub open spec fn names_chapter(c: PackageContents, d: DirsOptions, path: Seq<char>) -> bool {
    exists|k: u128, ch: u128|
        #[trigger] c.data@.contains_key(k) && #[trigger] c.data@[k].chapters@.contains_key(ch)
            && same_path(path, spec_chapters_add(d, chapter_entry_name(ch)))
}

proof fn lemma_layout_paths_agree(c: PackageContents, d: DirsOptions, e: DirsOptions, p: Seq<char>)
    requires
        package_layout(c, d),
        package_layout(c, e),
    ensures
        spec_mangas_add(d, p) == spec_mangas_add(e, p),
        spec_covers_add(d, p) == spec_covers_add(e, p),
        spec_chapters_add(d, p) == spec_chapters_add(e, p),
{
}

fn metadata_file(id: u128) -> (r: String)
    ensures
        r@ == metadata_entry_name(id),
{
    let mut name = uuid_text(id);
    name.append(".cbor");
    name
}

fn chapter_file(id: u128) -> (r: String)
    ensures
        r@ == chapter_entry_name(id),
{
    let mut name = uuid_text(id);
    name.append("/data.cbor");
    name
}

impl PackageContents {
    /// The entry that holds the metadata of manga `id`.
    pub fn manga_entry_path(&self, id: u128) -> (r: String)
        ensures
            forall|d: DirsOptions| #[trigger]
                package_layout(*self, d) ==> r@ == spec_mangas_add(d, metadata_entry_name(id)),
    {
        let d = layout(self);
        let r = d.mangas_add(metadata_file(id).as_str());
        assert forall|e: DirsOptions| #[trigger] package_layout(*self, e) implies r@ == spec_mangas_add(
            e,
            metadata_entry_name(id),
        ) by {
            lemma_layout_paths_agree(*self, d, e, metadata_entry_name(id));
        }
        r
    }

    /// The entry that holds the metadata of cover `id`.
    pub fn cover_entry_path(&self, id: u128) -> (r: String)
        ensures
            forall|d: DirsOptions| #[trigger]
                package_layout(*self, d) ==> r@ == spec_covers_add(d, metadata_entry_name(id)),
    {
        let d = layout(self);
        let r = d.covers_add(metadata_file(id).as_str());
        assert forall|e: DirsOptions| #[trigger] package_layout(*self, e) implies r@ == spec_covers_add(
            e,
            metadata_entry_name(id),
        ) by {
            lemma_layout_paths_agree(*self, d, e, metadata_entry_name(id));
        }
        r
    }

    /// The entry that holds the metadata of chapter `id`.
    pub fn chapter_entry_path(&self, id: u128) -> (r: String)
        ensures
            forall|d: DirsOptions| #[trigger]
                package_layout(*self, d) ==> r@ == spec_chapters_add(d, chapter_entry_name(id)),
    {
        let d = layout(self);
        let r = d.chapters_add(chapter_file(id).as_str());
        assert forall|e: DirsOptions| #[trigger] package_layout(*self, e) implies r@ == spec_chapters_add(
            e,
            chapter_entry_name(id),
        ) by {
            lemma_layout_paths_agree(*self, d, e, chapter_entry_name(id));
        }
        r
    }

    /// Whether `path` is the metadata entry of one of the package's mangas.
    pub fn is_manga_entry(&self, path: &str) -> (r: bool)
        ensures
            forall|d: DirsOptions| #[trigger] package_layout(*self, d) ==> (r == names_manga(*self, d, path@)),
    {
        let d = layout(self);
        proof {
            lemma_layouts_agree(*self, d);
        }
        let keys = collect_keys(&self.data);
        let mut i: usize = 0;
        while i < keys.len()
            invariant
                package_layout(*self, d),
                keys@.to_set() == self.data@.dom(),
                0 <= i <= keys@.len(),
                forall|j: int|
                    0 <= j < i ==> !same_path(path@, spec_mangas_add(d, metadata_entry_name(#[trigger] keys@[j]))),
            decreases keys@.len() - i,
        {
            let k = keys[i];
            assert(keys@.contains(k));
            if same_path_exec(path, d.mangas_add(metadata_file(k).as_str()).as_str()) {
                assert(self.data@.contains_key(k));
                assert forall|e: DirsOptions| #[trigger] package_layout(*self, e) implies names_manga(
                    *self,
                    e,
                    path@,
                ) by {
                    lemma_layout_paths_agree(*self, d, e, metadata_entry_name(k));
                }
                return true;
            }
            i = i + 1;
        }
        assert forall|e: DirsOptions| #[trigger] package_layout(*self, e) implies !names_manga(
            *self,
            e,
            path@,
        ) by {
            if names_manga(*self, e, path@) {
                let k = choose|k: u128| #[trigger] self.data@.contains_key(k) && same_path(path@, spec_mangas_add(e, metadata_entry_name(k)));
                lemma_layout_paths_agree(*self, d, e, metadata_entry_name(k));
                assert(names_manga(*self, d, path@));
            }
        }
        assert(!names_manga(*self, d, path@)) by {
            if names_manga(*self, d, path@) {
                let k = choose|k: u128| #[trigger] self.data@.contains_key(k) && same_path(path@, spec_mangas_add(d, metadata_entry_name(k)));
                assert(keys@.to_set().contains(k));
                let j = choose|j: int| 0 <= j < keys@.len() && keys@[j] == k;
                assert(!same_path(path@, spec_mangas_add(d, metadata_entry_name(keys@[j]))));
            }
        }
        false
    }

    /// Whether `path` is the metadata entry of one of the package's covers.
    pub fn is_cover_entry(&self, path: &str) -> (r: bool)
        ensures
            forall|d: DirsOptions| #[trigger] package_layout(*self, d) ==> (r == names_cover(*self, d, path@)),
    {
        let d = layout(self);
        let keys = collect_keys(&self.data);
        let mut i: usize = 0;
        while i < keys.len()
            invariant
                package_layout(*self, d),
                keys@.to_set() == self.data@.dom(),
                0 <= i <= keys@.len(),
                forall|j: int, c: int|
                    0 <= j < i && 0 <= c < self.data@[keys@[j]].covers@.len() ==> !same_path(
                        path@,
                        spec_covers_add(d, metadata_entry_name(#[trigger] self.data@[#[trigger] keys@[j]].covers@[c])),
                    ),
            decreases keys@.len() - i,
        {
            let k = keys[i];
            assert(keys@.contains(k));
            let m = self.data.get(&k).unwrap();
            let mut c: usize = 0;
            while c < m.covers.len()
                invariant
                    package_layout(*self, d),
                    self.data@.contains_key(k),
                    *m == self.data@[k],
                    0 <= c <= m.covers@.len(),
                    forall|x: int|
                        0 <= x < c ==> !same_path(path@, spec_covers_add(d, metadata_entry_name(#[trigger] m.covers@[x]))),
                decreases m.covers@.len() - c,
            {
                let id = m.covers[c];
                if same_path_exec(path, d.covers_add(metadata_file(id).as_str()).as_str()) {
                    assert forall|e: DirsOptions| #[trigger] package_layout(*self, e) implies names_cover(
                        *self,
                        e,
                        path@,
                    ) by {
                        lemma_layout_paths_agree(*self, d, e, metadata_entry_name(id));
                        assert(self.data@.contains_key(k) && self.data@[k].covers@[c as int] == id);
                    }
                    return true;
                }
                c = c + 1;
            }
            i = i + 1;
        }
        assert forall|e: DirsOptions| #[trigger] package_layout(*self, e) implies !names_cover(
            *self,
            e,
            path@,
        ) by {
            if names_cover(*self, e, path@) {
                let (k, x) = choose|k: u128, x: int|
                    #[trigger] self.data@.contains_key(k) && 0 <= x < self.data@[k].covers@.len()
                        && same_path(path@, spec_covers_add(e, metadata_entry_name(#[trigger] self.data@[k].covers@[x])));
                lemma_layout_paths_agree(*self, d, e, metadata_entry_name(self.data@[k].covers@[x]));
                assert(keys@.to_set().contains(k));
                let j = choose|j: int| 0 <= j < keys@.len() && keys@[j] == k;
                assert(!same_path(path@, spec_covers_add(d, metadata_entry_name(self.data@[keys@[j]].covers@[x]))));
            }
        }
        false
    }

    /// Whether `path` is the metadata entry of one of the package's chapters.
    pub fn is_chapter_entry(&self, path: &str) -> (r: bool)
        ensures
            forall|d: DirsOptions| #[trigger] package_layout(*self, d) ==> (r == names_chapter(*self, d, path@)),
    {
        let d = layout(self);
        let keys = collect_keys(&self.data);
        let mut i: usize = 0;
        while i < keys.len()
            invariant
                package_layout(*self, d),
                keys@.to_set() == self.data@.dom(),
                0 <= i <= keys@.len(),
                forall|j: int, ch: u128|
                    0 <= j < i && #[trigger] self.data@[#[trigger] keys@[j]].chapters@.contains_key(ch) ==> !same_path(
                        path@,
                        spec_chapters_add(d, chapter_entry_name(ch)),
                    ),
            decreases keys@.len() - i,
        {
            let k = keys[i];
            assert(keys@.contains(k));
            let m = self.data.get(&k).unwrap();
            let chapter_keys = collect_keys(&m.chapters);
            let mut c: usize = 0;
            while c < chapter_keys.len()
                invariant
                    package_layout(*self, d),
                    self.data@.contains_key(k),
                    *m == self.data@[k],
                    chapter_keys@.to_set() == m.chapters@.dom(),
                    0 <= c <= chapter_keys@.len(),
                    forall|x: int|
                        0 <= x < c ==> !same_path(path@, spec_chapters_add(d, chapter_entry_name(#[trigger] chapter_keys@[x]))),
                decreases chapter_keys@.len() - c,
            {
                let id = chapter_keys[c];
                if same_path_exec(path, d.chapters_add(chapter_file(id).as_str()).as_str()) {
                    assert(chapter_keys@.contains(id));
                    assert forall|e: DirsOptions| #[trigger] package_layout(*self, e) implies names_chapter(
                        *self,
                        e,
                        path@,
                    ) by {
                        lemma_layout_paths_agree(*self, d, e, chapter_entry_name(id));
                        assert(self.data@.contains_key(k) && self.data@[k].chapters@.contains_key(id));
                    }
                    return true;
                }
                c = c + 1;
            }
            assert forall|ch: u128| #[trigger] self.data@[keys@[i as int]].chapters@.contains_key(ch) implies !same_path(
                path@,
                spec_chapters_add(d, chapter_entry_name(ch)),
            ) by {
                assert(chapter_keys@.to_set().contains(ch));
                let x = choose|x: int| 0 <= x < chapter_keys@.len() && chapter_keys@[x] == ch;
                assert(!same_path(path@, spec_chapters_add(d, chapter_entry_name(chapter_keys@[x]))));
            }
            i = i + 1;
        }
        assert forall|e: DirsOptions| #[trigger] package_layout(*self, e) implies !names_chapter(
            *self,
            e,
            path@,
        ) by {
            if names_chapter(*self, e, path@) {
                let (k, ch) = choose|k: u128, ch: u128|
                    #[trigger] self.data@.contains_key(k) && #[trigger] self.data@[k].chapters@.contains_key(ch)
                        && same_path(path@, spec_chapters_add(e, chapter_entry_name(ch)));
                lemma_layout_paths_agree(*self, d, e, chapter_entry_name(ch));
                assert(keys@.to_set().contains(k));
                let j = choose|j: int| 0 <= j < keys@.len() && keys@[j] == k;
                assert(self.data@[keys@[j]].chapters@.contains_key(ch));
            }
        }
        false
    }
}

} // verus!
