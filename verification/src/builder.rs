//! Choosing what goes into a package before it is written.

use std::collections::HashMap;
use vstd::prelude::*;

use crate::contents::{
    chapters_or_empty, collect_keys, covers_or_empty, PChapterObject, PMangaObject, PackageContents,
    PackageContentsOptions,
};
use crate::dirs::{
    spec_chapters_id_add, spec_chapters_id_data_add, spec_chapters_id_data_saver_add,
    spec_cover_images_add, spec_covers_add, spec_mangas_add, DirsOptions,
};
use crate::ids::{hyphenated, uuid_text};
use crate::paths::{path_join, spec_join};
use crate::model::views;
use vstd::string::*;
use crate::error::{is_missing, missing, ManagerError};
use crate::filters::{filter_items, filtered, CoverListDataPullFilterParams, Validate};
use crate::images::ChapterImagesData;
use crate::model::{find_first_relationships, first_of_type, ChapterEntry, CoverEntry, MangaEntry, Mode, RelationshipType};
use crate::random::{draw_index, pick_by_draw, random_u64};

verus! {

broadcast use vstd::std_specs::hash::group_hash_axioms;

/// How tar headers record file metadata.
#[derive(Debug, Clone, Copy, PartialEq, Eq, Structural)]
pub enum TarHeaderMode {
    Complete,
    Deterministic,
}

/// Gathers the mangas, covers and chapters of a package.
#[derive(Debug)]
pub struct Builder {
    initial_dir_options: DirsOptions,
    contents: PackageContents,
    compression_level: i32,
    compress_image_to_jpeg: bool,
    header_mode: TarHeaderMode,
}

/// What a builder holds.
pub struct BuilderView {
    pub initial_dir_options: DirsOptions,
    pub options: Option<PackageContentsOptions>,
    pub data: Map<u128, PMangaObject>,
    pub compression_level: i32,
    pub compress_image_to_jpeg: bool,
    pub header_mode: TarHeaderMode,
}

impl View for Builder {
    type V = BuilderView;

    closed spec fn view(&self) -> BuilderView {
        BuilderView {
            initial_dir_options: self.initial_dir_options,
            options: self.contents.options,
            data: self.contents.data@,
            compression_level: self.compression_level,
            compress_image_to_jpeg: self.compress_image_to_jpeg,
            header_mode: self.header_mode,
        }
    }
}

/// Why a manga could not be removed.
#[derive(Debug, Clone, Copy, PartialEq, Eq, Structural)]
pub enum RemoveMangaError {
    NotFound(u128),
}

/// Why a cover could not be removed.
#[derive(Debug, Clone, Copy, PartialEq, Eq, Structural)]
pub enum RemoveCoverError {
    NotFound(u128),
    CannotBeSingle,
    RemoveMangaInstead,
}

/// Why a chapter, or its images, could not be removed.
#[derive(Debug, Clone, Copy, PartialEq, Eq, Structural)]
pub enum RemoveChapterError {
    NotFound(u128),
    RemoveMangaInstead,
    RemoveChapterInstead,
}

/// Manga `k` of `m` lists cover `id`.
pub open spec fn has_cover(m: Map<u128, PMangaObject>, k: u128, id: u128) -> bool {
    m.contains_key(k) && m[k].covers@.contains(id)
}

/// Manga `k` of `m` holds chapter `id`.
pub open spec fn has_chapter(m: Map<u128, PMangaObject>, k: u128, id: u128) -> bool {
    m.contains_key(k) && m[k].chapters@.contains_key(id)
}

/// `i` is where `x` first occurs in `s`.
pub open spec fn first_index(s: Seq<u128>, x: u128, i: int) -> bool {
    0 <= i < s.len() && s[i] == x && forall|j: int| 0 <= j < i ==> s[j] != x
}

/// Only the manga table differs between the two builders.
pub open spec fn same_settings(a: BuilderView, b: BuilderView) -> bool {
    &&& a.initial_dir_options == b.initial_dir_options
    &&& a.options == b.options
    &&& a.compression_level == b.compression_level
    &&& a.compress_image_to_jpeg == b.compress_image_to_jpeg
    &&& a.header_mode == b.header_mode
}

/// `new` is `old` with manga `k` replaced and every other manga kept.
pub open spec fn only_manga_changed(
    old: Map<u128, PMangaObject>,
    new: Map<u128, PMangaObject>,
    k: u128,
) -> bool {
    &&& new.dom() == old.dom()
    &&& forall|q: u128| #[trigger] new.contains_key(q) && q != k ==> new[q] == old[q]
}

/// Every manga lists at least one cover.
pub open spec fn every_manga_has_a_cover(m: Map<u128, PMangaObject>) -> bool {
    forall|k: u128| #[trigger] m.contains_key(k) ==> m[k].covers@.len() >= 1
}

/// Every chapter keeps images in at least one quality.
pub open spec fn every_chapter_has_images(m: Map<u128, PMangaObject>) -> bool {
    forall|k: u128, c: u128|
        #[trigger] has_chapter(m, k, c) ==> m[k].chapters@[c].data@.len() > 0
            || m[k].chapters@[c].data_saver@.len() > 0
}

/// Whether `v` holds `x`.
pub fn contains_id(v: &Vec<u128>, x: u128) -> (r: bool)
    ensures
        r == v@.contains(x),
{
    let mut i: usize = 0;
    while i < v.len()
        invariant
            0 <= i <= v@.len(),
            forall|j: int| 0 <= j < i ==> v@[j] != x,
        decreases v@.len() - i,
    {
        if v[i] == x {
            return true;
        }
        i = i + 1;
    }
    false
}

/// Where `x` first occurs in `v`.
fn position_of(v: &Vec<u128>, x: u128) -> (r: usize)
    requires
        v@.contains(x),
    ensures
        first_index(v@, x, r as int),
{
    let mut i: usize = 0;
    while i < v.len()
        invariant
            0 <= i <= v@.len(),
            v@.contains(x),
            forall|j: int| 0 <= j < i ==> v@[j] != x,
        decreases v@.len() - i,
    {
        if v[i] == x {
            return i;
        }
        i = i + 1;
    }
    assert(false);
    0
}

/// A manga of `data` that lists cover `id`, if any does.
fn find_manga_with_cover(data: &HashMap<u128, PMangaObject>, id: u128) -> (r: Option<u128>)
    ensures
        r matches Some(k) ==> has_cover(data@, k, id),
        r is None ==> forall|k: u128| !has_cover(data@, k, id),
{
    let keys = collect_keys(data);
    let mut i: usize = 0;
    while i < keys.len()
        invariant
            keys@.to_set() == data@.dom(),
            0 <= i <= keys@.len(),
            forall|j: int| 0 <= j < i ==> !has_cover(data@, #[trigger] keys@[j], id),
        decreases keys@.len() - i,
    {
        let k = keys[i];
        assert(keys@.contains(k));
        let m = data.get(&k).unwrap();
        if contains_id(&m.covers, id) {
            return Some(k);
        }
        i = i + 1;
    }
    assert forall|k: u128| !has_cover(data@, k, id) by {
        if data@.contains_key(k) {
            assert(keys@.to_set().contains(k));
            let j = choose|j: int| 0 <= j < keys@.len() && keys@[j] == k;
            assert(!has_cover(data@, keys@[j], id));
        }
    }
    None
}

/// A manga of `data` that holds chapter `id`, if any does.
fn find_manga_with_chapter(data: &HashMap<u128, PMangaObject>, id: u128) -> (r: Option<u128>)
    ensures
        r matches Some(k) ==> has_chapter(data@, k, id),
        r is None ==> forall|k: u128| !has_chapter(data@, k, id),
{
    let keys = collect_keys(data);
    let mut i: usize = 0;
    while i < keys.len()
        invariant
            keys@.to_set() == data@.dom(),
            0 <= i <= keys@.len(),
            forall|j: int| 0 <= j < i ==> !has_chapter(data@, #[trigger] keys@[j], id),
        decreases keys@.len() - i,
    {
        let k = keys[i];
        assert(keys@.contains(k));
        let m = data.get(&k).unwrap();
        if m.chapters.contains_key(&id) {
            return Some(k);
        }
        i = i + 1;
    }
    assert forall|k: u128| !has_chapter(data@, k, id) by {
        if data@.contains_key(k) {
            assert(keys@.to_set().contains(k));
            let j = choose|j: int| 0 <= j < keys@.len() && keys@[j] == k;
            assert(!has_chapter(data@, keys@[j], id));
        }
    }
    None
}

impl Default for Builder {
    /// An empty builder that reads from the default layout.
    fn default() -> (r: Builder)
        ensures
            (
                r@.initial_dir_options.data_dir@,
                r@.initial_dir_options.chapters@,
                r@.initial_dir_options.mangas@,
                r@.initial_dir_options.covers@,
            ) == crate::dirs::spec_new_from_data_dir(Seq::empty()),
            r@.options is None,
            r@.data == Map::<u128, PMangaObject>::empty(),
            r@.compression_level == 0,
            !r@.compress_image_to_jpeg,
            r@.header_mode == TarHeaderMode::Complete,
    {
        Builder::new(DirsOptions::default())
    }
}

impl Builder {
    /// An empty builder that reads from `dirs`.
    pub fn new(dirs: DirsOptions) -> (r: Builder)
        ensures
            r@.initial_dir_options == dirs,
            r@.options is None,
            r@.data == Map::<u128, PMangaObject>::empty(),
            r@.compression_level == 0,
            !r@.compress_image_to_jpeg,
            r@.header_mode == TarHeaderMode::Complete,
    {
        Builder {
            initial_dir_options: dirs,
            contents: PackageContents::new(),
            compression_level: 0,
            compress_image_to_jpeg: false,
            header_mode: TarHeaderMode::Complete,
        }
    }

    /// Whether images are re-encoded as JPEG when written.
    pub fn set_compress_image_to_jpeg(self, compress_image_to_jpeg: bool) -> (r: Builder)
        ensures
            r@ == (BuilderView { compress_image_to_jpeg, ..self@ }),
    {
        let mut s = self;
        s.compress_image_to_jpeg = compress_image_to_jpeg;
        s
    }

    /// How tar headers are written.
    pub fn set_tar_header_mode(self, mode: TarHeaderMode) -> (r: Builder)
        ensures
            r@ == (BuilderView { header_mode: mode, ..self@ }),
    {
        let mut s = self;
        s.header_mode = mode;
        s
    }

    /// Replaces what the package holds.
    pub fn set_content(self, content: PackageContents) -> (r: Builder)
        ensures
            r@ == (BuilderView { options: content.options, data: content.data@, ..self@ }),
    {
        let mut s = self;
        s.contents = content;
        s
    }

    /// Whether images are stored zstd-compressed inside the package.
    pub fn zstd_compressed_images(&mut self, compressed_images: bool)
        ensures
            same_settings_but_options(old(self)@, final(self)@),
            final(self)@.options matches Some(o) && o.zstd_compressed_images == compressed_images,
            old(self)@.options matches Some(p) ==> final(self)@.options.unwrap() == (
            PackageContentsOptions { zstd_compressed_images: compressed_images, ..p }),
            old(self)@.options is None ==> final(self)@.options.unwrap().directories is None
                && !final(self)@.options.unwrap().zstd_compressed_metadata,
    {
        let mut o = match self.contents.options.take() {
            Some(o) => o,
            None => PackageContentsOptions::new(),
        };
        o.zstd_compressed_images = compressed_images;
        self.contents.options = Some(o);
    }

    /// Whether metadata is stored zstd-compressed inside the package.
    pub fn zstd_compressed_metadata(&mut self, compressed_metadata: bool)
        ensures
            same_settings_but_options(old(self)@, final(self)@),
            final(self)@.options matches Some(o) && o.zstd_compressed_metadata == compressed_metadata,
            old(self)@.options matches Some(p) ==> final(self)@.options.unwrap() == (
            PackageContentsOptions { zstd_compressed_metadata: compressed_metadata, ..p }),
            old(self)@.options is None ==> final(self)@.options.unwrap().directories is None
                && !final(self)@.options.unwrap().zstd_compressed_images,
    {
        let mut o = match self.contents.options.take() {
            Some(o) => o,
            None => PackageContentsOptions::new(),
        };
        o.zstd_compressed_metadata = compressed_metadata;
        self.contents.options = Some(o);
    }

    /// Sets the zstd compression level.
    pub fn set_compression_level(&mut self, compression_level: i32)
        ensures
            final(self)@ == (BuilderView { compression_level, ..old(self)@ }),
    {
        self.compression_level = compression_level;
    }

    /// The zstd compression level.
    pub fn get_compression_level(&self) -> (r: i32)
        ensures
            r == self@.compression_level,
    {
        self.compression_level
    }

    /// What the package holds.
    pub fn get_package_contents(&self) -> (r: &PackageContents)
        ensures
            r.options == self@.options,
            r.data@ == self@.data,
    {
        &self.contents
    }

    /// The layout that the package is read from.
    pub fn initial_dir_options(&self) -> (r: &DirsOptions)
        ensures
            *r == self@.initial_dir_options,
    {
        &self.initial_dir_options
    }

    /// Whether images are re-encoded as JPEG when written.
    pub fn compresses_image_to_jpeg(&self) -> (r: bool)
        ensures
            r == self@.compress_image_to_jpeg,
    {
        self.compress_image_to_jpeg
    }

    /// How tar headers are written.
    pub fn header_mode(&self) -> (r: TarHeaderMode)
        ensures
            r == self@.header_mode,
    {
        self.header_mode
    }

    /// Takes manga `id` out of the package.
    pub fn remove_manga(&mut self, id: u128) -> (r: Result<(), RemoveMangaError>)
        ensures
            same_settings(old(self)@, final(self)@),
            r is Ok <==> old(self)@.data.contains_key(id),
            r is Ok ==> final(self)@.data == old(self)@.data.remove(id),
            r is Err ==> r == Err::<(), RemoveMangaError>(RemoveMangaError::NotFound(id))
                && final(self)@.data == old(self)@.data,
    {
        if self.contents.data.remove(&id).is_none() {
            Err(RemoveMangaError::NotFound(id))
        } else {
            Ok(())
        }
    }

    /// Takes cover `id` out of the first manga that lists it, when that manga
    /// keeps another cover.
    pub fn remove_cover(&mut self, id: u128) -> (r: Result<(), RemoveCoverError>)
        ensures
            same_settings(old(self)@, final(self)@),
            r is Ok ==> exists|k: u128, idx: int|
                #[trigger] cover_removed(old(self)@.data, final(self)@.data, k, id, idx),
            r is Err ==> final(self)@.data == old(self)@.data,
            r == Err::<(), RemoveCoverError>(RemoveCoverError::NotFound(id)) <==> forall|k: u128|
                !has_cover(old(self)@.data, k, id),
            r matches Err(RemoveCoverError::NotFound(x)) ==> x == id,
            r == Err::<(), RemoveCoverError>(RemoveCoverError::RemoveMangaInstead) ==> exists|k: u128|
                has_cover(old(self)@.data, k, id) && old(self)@.data[k].covers@.len() <= 1
                    && old(self)@.data[k].chapters@.len() <= 1,
            r == Err::<(), RemoveCoverError>(RemoveCoverError::CannotBeSingle) ==> exists|k: u128|
                has_cover(old(self)@.data, k, id) && old(self)@.data[k].covers@.len() <= 1
                    && old(self)@.data[k].chapters@.len() > 1,
            every_manga_has_a_cover(old(self)@.data) ==> every_manga_has_a_cover(final(self)@.data),
    {
        match find_manga_with_cover(&self.contents.data, id) {
            None => Err(RemoveCoverError::NotFound(id)),
            Some(k) => {
                let ghost old_data = self.contents.data@;
                assert(old_data == old(self)@.data);
                assert(has_cover(old(self)@.data, k, id));
                let (covers_len, chapters_len) = {
                    let m = self.contents.data.get(&k).unwrap();
                    (m.covers.len(), m.chapters.len())
                };
                if covers_len > 1 {
                    let mut m = self.contents.data.remove(&k).unwrap();
                    let idx = position_of(&m.covers, id);
                    m.covers.remove(idx);
                    self.contents.data.insert(k, m);
                    assert(self.contents.data@.dom() =~= old_data.dom());
                    assert(first_index(old_data[k].covers@, id, idx as int));
                    assert(self.contents.data@[k].covers@ =~= old_data[k].covers@.remove(idx as int));
                    assert(only_manga_changed(old_data, self.contents.data@, k));
                    assert(self.contents.data@[k].chapters == old_data[k].chapters);
                    assert(every_manga_has_a_cover(old_data) ==> every_manga_has_a_cover(
                        self.contents.data@,
                    ));
                    assert(cover_removed(old(self)@.data, self@.data, k, id, idx as int));
                    Ok(())
                } else if chapters_len <= 1 {
                    Err(RemoveCoverError::RemoveMangaInstead)
                } else {
                    Err(RemoveCoverError::CannotBeSingle)
                }
            },
        }
    }

    /// Takes chapter `id` out of the first manga that holds it, unless that
    /// manga would be left with at most one cover and no chapter.
    pub fn remove_chapter(&mut self, id: u128) -> (r: Result<(), RemoveChapterError>)
        ensures
            same_settings(old(self)@, final(self)@),
            r is Ok ==> exists|k: u128|
                #[trigger] chapter_removed(old(self)@.data, final(self)@.data, k, id),
            r is Err ==> final(self)@.data == old(self)@.data,
            r == Err::<(), RemoveChapterError>(RemoveChapterError::NotFound(id)) <==> forall|k: u128|
                !has_chapter(old(self)@.data, k, id),
            r matches Err(RemoveChapterError::NotFound(x)) ==> x == id,
            r == Err::<(), RemoveChapterError>(RemoveChapterError::RemoveMangaInstead) ==> exists|k: u128|
                has_chapter(old(self)@.data, k, id) && old(self)@.data[k].chapters@.len() <= 1
                    && old(self)@.data[k].covers@.len() <= 1,
            r != Err::<(), RemoveChapterError>(RemoveChapterError::RemoveChapterInstead),
    {
        match find_manga_with_chapter(&self.contents.data, id) {
            None => Err(RemoveChapterError::NotFound(id)),
            Some(k) => {
                let ghost old_data = self.contents.data@;
                assert(old_data == old(self)@.data);
                assert(has_chapter(old(self)@.data, k, id));
                let (covers_len, chapters_len) = {
                    let m = self.contents.data.get(&k).unwrap();
                    (m.covers.len(), m.chapters.len())
                };
                if chapters_len <= 1 && covers_len <= 1 {
                    Err(RemoveChapterError::RemoveMangaInstead)
                } else {
                    let mut m = self.contents.data.remove(&k).unwrap();
                    m.chapters.remove(&id);
                    self.contents.data.insert(k, m);
                    assert(self.contents.data@.dom() =~= old_data.dom());
                    assert(only_manga_changed(old_data, self.contents.data@, k));
                    assert(self.contents.data@[k].chapters@ == old_data[k].chapters@.remove(id));
                    assert(chapter_removed(old(self)@.data, self@.data, k, id));
                    Ok(())
                }
            },
        }
    }

    /// Empties the `mode` image list of chapter `id`, in the first manga that
    /// holds it, when the manga keeps something else and the chapter keeps
    /// images in both qualities.
    pub fn clear_chapter_images(&mut self, id: u128, mode: Mode) -> (r: Result<
        (),
        RemoveChapterError,
    >)
        ensures
            same_settings(old(self)@, final(self)@),
            r is Ok ==> exists|k: u128|
                #[trigger] chapter_images_cleared(old(self)@.data, final(self)@.data, k, id, mode),
            r is Err ==> final(self)@.data == old(self)@.data,
            r == Err::<(), RemoveChapterError>(RemoveChapterError::NotFound(id)) <==> forall|k: u128|
                !has_chapter(old(self)@.data, k, id),
            r matches Err(RemoveChapterError::NotFound(x)) ==> x == id,
            r == Err::<(), RemoveChapterError>(RemoveChapterError::RemoveMangaInstead) ==> exists|k: u128|
                has_chapter(old(self)@.data, k, id) && old(self)@.data[k].chapters@.len() <= 1
                    && old(self)@.data[k].covers@.len() <= 1,
            r == Err::<(), RemoveChapterError>(RemoveChapterError::RemoveChapterInstead) ==> exists|k: u128|
                has_chapter(old(self)@.data, k, id) && !(old(self)@.data[k].chapters@.len() <= 1
                    && old(self)@.data[k].covers@.len() <= 1) && (
                old(self)@.data[k].chapters@[id].data@.len() == 0
                    || old(self)@.data[k].chapters@[id].data_saver@.len() == 0),
            every_chapter_has_images(old(self)@.data) ==> every_chapter_has_images(final(self)@.data),
    {
        match find_manga_with_chapter(&self.contents.data, id) {
            None => Err(RemoveChapterError::NotFound(id)),
            Some(k) => {
                let ghost old_data = self.contents.data@;
                assert(old_data == old(self)@.data);
                assert(has_chapter(old(self)@.data, k, id));
                let (should_remove_manga, should_remove_chapter) = {
                    let m = self.contents.data.get(&k).unwrap();
                    let c = m.chapters.get(&id).unwrap();
                    (
                        m.chapters.len() <= 1 && m.covers.len() <= 1,
                        c.data.len() == 0 || c.data_saver.len() == 0,
                    )
                };
                if should_remove_manga {
                    Err(RemoveChapterError::RemoveMangaInstead)
                } else if should_remove_chapter {
                    Err(RemoveChapterError::RemoveChapterInstead)
                } else {
                    let mut m = self.contents.data.remove(&k).unwrap();
                    let mut c = m.chapters.remove(&id).unwrap();
                    match mode {
                        Mode::Data => c.data.clear(),
                        Mode::DataSaver => c.data_saver.clear(),
                    }
                    m.chapters.insert(id, c);
                    self.contents.data.insert(k, m);
                    assert(self.contents.data@.dom() =~= old_data.dom());
                    assert(self.contents.data@[k].chapters@.dom() =~= old_data[k].chapters@.dom());
                    assert forall|q: u128, cc: u128|
                        #[trigger] has_chapter(self.contents.data@, q, cc) && every_chapter_has_images(old_data)
                            implies self.contents.data@[q].chapters@[cc].data@.len() > 0
                        || self.contents.data@[q].chapters@[cc].data_saver@.len() > 0 by {
                        assert(has_chapter(old_data, q, cc));
                    }
                    assert(only_manga_changed(old_data, self.contents.data@, k));
                    assert forall|c: u128| #[trigger] old_data[k].chapters@.contains_key(c) && c != id
                        implies self.contents.data@[k].chapters@[c] == old_data[k].chapters@[c] by {
                    }
                    assert(chapter_images_cleared(old(self)@.data, self@.data, k, id, mode));
                    Ok(())
                }
            },
        }
    }
}

/// Cover `id` was taken out of manga `k`, from its first position `idx`;
/// the manga kept another cover, and nothing else changed.
pub open spec fn cover_removed(
    old: Map<u128, PMangaObject>,
    new: Map<u128, PMangaObject>,
    k: u128,
    id: u128,
    idx: int,
) -> bool {
    &&& has_cover(old, k, id)
    &&& old[k].covers@.len() > 1
    &&& first_index(old[k].covers@, id, idx)
    &&& only_manga_changed(old, new, k)
    &&& new[k].covers@ == old[k].covers@.remove(idx)
    &&& new[k].chapters == old[k].chapters
}

/// Chapter `id` was taken out of manga `k`, which kept more than one cover
/// or more than one chapter; nothing else changed.
pub open spec fn chapter_removed(
    old: Map<u128, PMangaObject>,
    new: Map<u128, PMangaObject>,
    k: u128,
    id: u128,
) -> bool {
    &&& has_chapter(old, k, id)
    &&& !(old[k].chapters@.len() <= 1 && old[k].covers@.len() <= 1)
    &&& only_manga_changed(old, new, k)
    &&& new[k].covers == old[k].covers
    &&& new[k].chapters@ == old[k].chapters@.remove(id)
}

/// The `mode` images of chapter `id` in manga `k` were emptied; the manga
/// kept more than one cover or chapter, the chapter had images in both
/// qualities, and nothing else changed.
pub open spec fn chapter_images_cleared(
    old: Map<u128, PMangaObject>,
    new: Map<u128, PMangaObject>,
    k: u128,
    id: u128,
    mode: Mode,
) -> bool {
    let before = old[k].chapters@[id];
    let after = new[k].chapters@[id];
    &&& has_chapter(old, k, id)
    &&& !(old[k].chapters@.len() <= 1 && old[k].covers@.len() <= 1)
    &&& before.data@.len() > 0 && before.data_saver@.len() > 0
    &&& only_manga_changed(old, new, k)
    &&& new[k].covers == old[k].covers
    &&& new[k].chapters@.dom() == old[k].chapters@.dom()
    &&& forall|c: u128|
        #[trigger] old[k].chapters@.contains_key(c) && c != id ==> new[k].chapters@[c]
            == old[k].chapters@[c]
    &&& mode == Mode::Data ==> after.data@.len() == 0 && after.data_saver == before.data_saver
    &&& mode == Mode::DataSaver ==> after.data_saver@.len() == 0 && after.data == before.data
}

/// Only the package options may differ between the two builders.
pub open spec fn same_settings_but_options(a: BuilderView, b: BuilderView) -> bool {
    &&& a.initial_dir_options == b.initial_dir_options
    &&& a.data == b.data
    &&& a.compression_level == b.compression_level
    &&& a.compress_image_to_jpeg == b.compress_image_to_jpeg
    &&& a.header_mode == b.header_mode
}

/// `new` is `old` with manga `k` given these covers and chapters, every
/// other manga kept.
pub open spec fn manga_set(
    old: Map<u128, PMangaObject>,
    new: Map<u128, PMangaObject>,
    k: u128,
    covers: Seq<u128>,
    chapters: Map<u128, PChapterObject>,
) -> bool {
    &&& new.dom() == old.dom().insert(k)
    &&& forall|q: u128| #[trigger] new.contains_key(q) && q != k ==> new[q] == old[q]
    &&& new[k].covers@ == covers
    &&& new[k].chapters@ == chapters
}

/// `s` with `c` appended unless it is already there.
pub open spec fn with_cover(s: Seq<u128>, c: u128) -> Seq<u128> {
    if s.contains(c) {
        s
    } else {
        s.push(c)
    }
}

/// Whether a cover is one that the package may pick for manga `m`: its
/// manga is `m`, and it has an uploader and a locale.
pub open spec fn cover_of_manga(m: u128, c: CoverEntry) -> bool {
    &&& c.locale is Some
    &&& first_of_type(c.relationships@, RelationshipType::Manga) matches Some(x) && x.id == m
    &&& first_of_type(c.relationships@, RelationshipType::User) is Some
}

/// The ids of the covers of `s` that the package may pick for manga `m`, in
/// order.
pub open spec fn manga_cover_ids(s: Seq<CoverEntry>, m: u128) -> Seq<u128>
    decreases s.len(),
{
    if s.len() == 0 {
        Seq::empty()
    } else if cover_of_manga(m, s.last()) {
        manga_cover_ids(s.drop_last(), m).push(s.last().id)
    } else {
        manga_cover_ids(s.drop_last(), m)
    }
}

/// Whether a cover of `s` has id `c`.
pub open spec fn lists_cover(s: Seq<CoverEntry>, c: u128) -> bool {
    exists|i: int| 0 <= i < s.len() && #[trigger] s[i].id == c
}

/// Whether a manga can be given a cover from `covers`: it names none, or
/// the one it names is among them, or one of them is of the manga.
pub open spec fn manga_cover_available(manga: MangaEntry, covers: Seq<CoverEntry>) -> bool {
    first_of_type(manga.relationships@, RelationshipType::CoverArt) matches Some(c) ==> (lists_cover(
        covers,
        c.id,
    ) || manga_cover_ids(covers, manga.id).len() > 0)
}

/// The cover that a manga is given: the one it names when it is among
/// `covers`, else the one that the draw picks among the covers of the manga.
pub open spec fn chosen_cover(manga: MangaEntry, covers: Seq<CoverEntry>, draw: u64) -> u128 {
    let c = first_of_type(manga.relationships@, RelationshipType::CoverArt).unwrap().id;
    if lists_cover(covers, c) {
        c
    } else {
        let ids = manga_cover_ids(covers, manga.id);
        ids[draw_index(draw, ids.len())]
    }
}

/// Manga `k` of `new` has chapter `c` filled with the `mode` images, from
/// `old`; a manga that was not there starts with the cover `cover`.
pub open spec fn chapter_added(
    old: Map<u128, PMangaObject>,
    new: Map<u128, PMangaObject>,
    k: u128,
    cover: u128,
    c: u128,
    images: ChapterImagesData,
    mode: Mode,
) -> bool {
    let covers = if old.contains_key(k) {
        old[k].covers@
    } else {
        seq![cover]
    };
    let chapters = chapters_or_empty(old, k);
    let before_data = if chapters.contains_key(c) {
        chapters[c].data@
    } else {
        Seq::empty()
    };
    let before_saver = if chapters.contains_key(c) {
        chapters[c].data_saver@
    } else {
        Seq::empty()
    };
    &&& new.dom() == old.dom().insert(k)
    &&& forall|q: u128| #[trigger] new.contains_key(q) && q != k ==> new[q] == old[q]
    &&& new[k].covers@ == covers
    &&& new[k].chapters@.dom() == chapters.dom().insert(c)
    &&& forall|d: u128|
        #[trigger] new[k].chapters@.contains_key(d) && d != c ==> new[k].chapters@[d] == chapters[d]
    &&& new[k].chapters@[c].data@ == if mode == Mode::Data {
        images.data@
    } else {
        before_data
    }
    &&& new[k].chapters@[c].data_saver@ == if mode == Mode::DataSaver {
        images.data_saver@
    } else {
        before_saver
    }
}

proof fn lemma_manga_cover_ids(s: Seq<CoverEntry>, p: CoverListDataPullFilterParams, m: u128)
    requires
        forall|c: CoverEntry| p.spec_is_valid(c) == cover_of_manga(m, c),
    ensures
        filtered(s, p).map_values(|c: CoverEntry| c.id) == manga_cover_ids(s, m),
    decreases s.len(),
{
    if s.len() > 0 {
        lemma_manga_cover_ids(s.drop_last(), p, m);
        assert(p.spec_is_valid(s.last()) == cover_of_manga(m, s.last()));
        if cover_of_manga(m, s.last()) {
            assert(filtered(s, p).map_values(|c: CoverEntry| c.id) =~= filtered(s.drop_last(), p).map_values(
                |c: CoverEntry| c.id,
            ).push(s.last().id));
        }
    } else {
        assert(filtered(s, p).map_values(|c: CoverEntry| c.id) =~= Seq::<u128>::empty());
    }
}

/// The ids of the covers, in order.
fn cover_ids(v: &Vec<CoverEntry>) -> (r: Vec<u128>)
    ensures
        r@ == v@.map_values(|c: CoverEntry| c.id),
{
    let mut r: Vec<u128> = Vec::new();
    let mut i: usize = 0;
    while i < v.len()
        invariant
            0 <= i <= v@.len(),
            r@ == v@.take(i as int).map_values(|c: CoverEntry| c.id),
        decreases v@.len() - i,
    {
        r.push(v[i].id);
        i = i + 1;
        assert(r@ =~= v@.take(i as int).map_values(|c: CoverEntry| c.id));
    }
    assert(v@.take(v@.len() as int) =~= v@);
    r
}

/// Whether one of the covers has id `c`.
fn find_cover(v: &Vec<CoverEntry>, c: u128) -> (r: bool)
    ensures
        r == lists_cover(v@, c),
{
    let mut i: usize = 0;
    while i < v.len()
        invariant
            0 <= i <= v@.len(),
            forall|j: int| 0 <= j < i ==> #[trigger] v@[j].id != c,
        decreases v@.len() - i,
    {
        if v[i].id == c {
            return true;
        }
        i = i + 1;
    }
    false
}

/// Whether a manga can be given a cover from `covers` (see
/// `manga_cover_available`).
pub fn can_pick_cover(manga: &MangaEntry, covers: &Vec<CoverEntry>) -> (r: bool)
    ensures
        r == manga_cover_available(*manga, covers@),
{
    match find_first_relationships(&manga.relationships, RelationshipType::CoverArt) {
        None => true,
        Some(c) => {
            if find_cover(covers, c.id) {
                true
            } else {
                let mut i: usize = 0;
                while i < covers.len()
                    invariant
                        0 <= i <= covers@.len(),
                        manga_cover_ids(covers@.take(i as int), manga.id).len() == 0,
                    decreases covers@.len() - i,
                {
                    assert(covers@.take(i + 1).drop_last() =~= covers@.take(i as int));
                    if cover_is_of_manga(&covers[i], manga.id) {
                        assert(manga_cover_ids(covers@.take(i + 1), manga.id).len() > 0);
                        proof {
                            lemma_cover_ids_prefix(covers@, i + 1, manga.id);
                        }
                        return true;
                    }
                    i = i + 1;
                }
                assert(covers@.take(covers@.len() as int) =~= covers@);
                false
            }
        },
    }
}

proof fn lemma_cover_ids_prefix(s: Seq<CoverEntry>, k: int, m: u128)
    requires
        0 <= k <= s.len(),
    ensures
        manga_cover_ids(s.take(k), m).len() <= manga_cover_ids(s, m).len(),
    decreases s.len() - k,
{
    if k < s.len() {
        lemma_cover_ids_prefix(s, k + 1, m);
        assert(s.take(k + 1).drop_last() =~= s.take(k));
    } else {
        assert(s.take(k) =~= s);
    }
}

/// Whether the cover is one that the package may pick for manga `m`.
fn cover_is_of_manga(c: &CoverEntry, m: u128) -> (r: bool)
    ensures
        r == cover_of_manga(m, *c),
{
    if c.locale.is_none() {
        return false;
    }
    if find_first_relationships(&c.relationships, RelationshipType::User).is_none() {
        return false;
    }
    match find_first_relationships(&c.relationships, RelationshipType::Manga) {
        Some(x) => x.id == m,
        None => false,
    }
}

impl Builder {
    /// Adds cover `cover` to the manga it belongs to, `manga`, unless that
    /// manga lists it already. `manga` is the manga that the cover's first
    /// manga relationship names.
    pub fn add_cover(&mut self, cover: &CoverEntry, manga: &MangaEntry) -> (r: Result<
        (),
        ManagerError,
    >)
        requires
            first_of_type(cover.relationships@, RelationshipType::Manga) matches Some(rel) ==> rel.id
                == manga.id,
        ensures
            same_settings(old(self)@, final(self)@),
            r is Ok <==> first_of_type(cover.relationships@, RelationshipType::Manga) is Some,
            r matches Err(e) ==> is_missing(e, RelationshipType::Manga) && final(self)@.data == old(
                self,
            )@.data,
            r is Ok ==> manga_set(
                old(self)@.data,
                final(self)@.data,
                manga.id,
                with_cover(covers_or_empty(old(self)@.data, manga.id), cover.id),
                chapters_or_empty(old(self)@.data, manga.id),
            ),
    {
        if find_first_relationships(&cover.relationships, RelationshipType::Manga).is_none() {
            return Err(missing(RelationshipType::Manga));
        }
        let ghost old_data = self.contents.data@;
        let mut m = match self.contents.data.remove(&manga.id) {
            Some(m) => m,
            None => PMangaObject::new(),
        };
        let ghost before = m.covers@;
        assert(before =~= covers_or_empty(old_data, manga.id));
        assert(m.chapters@ =~= chapters_or_empty(old_data, manga.id));
        if !contains_id(&m.covers, cover.id) {
            m.covers.push(cover.id);
        }
        assert(m.covers@ == with_cover(before, cover.id));
        self.contents.data.insert(manga.id, m);
        assert(self.contents.data@.dom() =~= old_data.dom().insert(manga.id));
        assert(manga_set(
            old_data,
            self.contents.data@,
            manga.id,
            with_cover(covers_or_empty(old_data, manga.id), cover.id),
            chapters_or_empty(old_data, manga.id),
        ));
        Ok(())
    }

    /// Adds the `mode` images of chapter `chapter` to the manga it belongs
    /// to, `manga`: the manga that the chapter's first manga relationship
    /// names. A manga that the package lacks starts with the cover it names.
    pub fn add_chapter(
        &mut self,
        chapter: &ChapterEntry,
        images: ChapterImagesData,
        manga: &MangaEntry,
        mode: Mode,
    ) -> (r: Result<(), ManagerError>)
        requires
            first_of_type(chapter.relationships@, RelationshipType::Manga) matches Some(rel)
                ==> rel.id == manga.id,
        ensures
            same_settings(old(self)@, final(self)@),
            r is Ok <==> first_of_type(chapter.relationships@, RelationshipType::Manga) is Some
                && first_of_type(manga.relationships@, RelationshipType::CoverArt) is Some,
            first_of_type(chapter.relationships@, RelationshipType::Manga) is None ==> (r matches Err(
                e,
            ) && is_missing(e, RelationshipType::Manga)),
            first_of_type(chapter.relationships@, RelationshipType::Manga) is Some && first_of_type(
                manga.relationships@,
                RelationshipType::CoverArt,
            ) is None ==> (r matches Err(e) && is_missing(e, RelationshipType::CoverArt)),
            r is Err ==> final(self)@.data == old(self)@.data,
            r is Ok ==> chapter_added(
                old(self)@.data,
                final(self)@.data,
                manga.id,
                first_of_type(manga.relationships@, RelationshipType::CoverArt).unwrap().id,
                chapter.id,
                images,
                mode,
            ),
    {
        if find_first_relationships(&chapter.relationships, RelationshipType::Manga).is_none() {
            return Err(missing(RelationshipType::Manga));
        }
        let cover = match find_first_relationships(&manga.relationships, RelationshipType::CoverArt) {
            None => {
                return Err(missing(RelationshipType::CoverArt));
            },
            Some(c) => c.id,
        };
        let ghost old_data = self.contents.data@;
        let mut m = match self.contents.data.remove(&manga.id) {
            Some(m) => m,
            None => {
                let mut covers: Vec<u128> = Vec::new();
                covers.push(cover);
                PMangaObject { covers, chapters: HashMap::new() }
            },
        };
        let ghost old_chapters = m.chapters@;
        let ghost old_covers = m.covers@;
        assert(old_chapters =~= chapters_or_empty(old_data, manga.id));
        let mut c = match m.chapters.remove(&chapter.id) {
            Some(c) => c,
            None => PChapterObject::new(),
        };
        let ghost before_data = c.data@;
        let ghost before_saver = c.data_saver@;
        assert(before_data =~= if old_chapters.contains_key(chapter.id) {
            old_chapters[chapter.id].data@
        } else {
            Seq::empty()
        });
        assert(before_saver =~= if old_chapters.contains_key(chapter.id) {
            old_chapters[chapter.id].data_saver@
        } else {
            Seq::empty()
        });
        assert(old_covers =~= if old_data.contains_key(manga.id) {
            old_data[manga.id].covers@
        } else {
            seq![cover]
        });
        match mode {
            Mode::Data => {
                c.data = images.data;
            },
            Mode::DataSaver => {
                c.data_saver = images.data_saver;
            },
        }
        let ghost after = c;
        m.chapters.insert(chapter.id, c);
        assert(m.chapters@.dom() =~= old_chapters.dom().insert(chapter.id));
        assert(m.chapters@[chapter.id] == after);
        assert(m.covers@ == old_covers);
        self.contents.data.insert(manga.id, m);
        assert(self.contents.data@.dom() =~= old_data.dom().insert(manga.id));
        assert(self.contents.data@[manga.id].chapters@[chapter.id] == after);
        assert(chapter_added(
            old_data,
            self.contents.data@,
            manga.id,
            cover,
            chapter.id,
            images,
            mode,
        ));
        Ok(())
    }

    /// Adds manga `manga`, with one cover: the one it names when it is
    /// among `covers`, else the one that `draw` picks among the covers of the
    /// manga. The cover is appended to the manga's covers.
    pub fn add_manga_by_draw(&mut self, manga: &MangaEntry, covers: Vec<CoverEntry>, draw: u64) -> (r:
        Result<(), ManagerError>)
        requires
            manga_cover_available(*manga, covers@),
        ensures
            same_settings(old(self)@, final(self)@),
            r is Ok <==> first_of_type(manga.relationships@, RelationshipType::CoverArt) is Some,
            r matches Err(e) ==> is_missing(e, RelationshipType::CoverArt) && final(self)@.data == old(
                self,
            )@.data,
            r is Ok ==> manga_set(
                old(self)@.data,
                final(self)@.data,
                manga.id,
                covers_or_empty(old(self)@.data, manga.id).push(chosen_cover(*manga, covers@, draw)),
                chapters_or_empty(old(self)@.data, manga.id),
            ),
    {
        let named = match find_first_relationships(&manga.relationships, RelationshipType::CoverArt) {
            None => {
                return Err(missing(RelationshipType::CoverArt));
            },
            Some(c) => c.id,
        };
        let ghost all = covers@;
        let cover_id = if find_cover(&covers, named) {
            named
        } else {
            let mut manga_ids: Vec<u128> = Vec::new();
            manga_ids.push(manga.id);
            let params = CoverListDataPullFilterParams {
                manga_ids,
                uploader_ids: Vec::new(),
                locales: Vec::new(),
            };
            assert(params.manga_ids@ =~= seq![manga.id]);
            assert forall|c: CoverEntry| params.spec_is_valid(c) == cover_of_manga(manga.id, c) by {
                if let Some(x) = first_of_type(c.relationships@, RelationshipType::Manga) {
                    if x.id == manga.id {
                        assert(params.manga_ids@[0] == x.id);
                    }
                }
            }
            proof {
                lemma_manga_cover_ids(all, params, manga.id);
            }
            let kept = filter_items(covers, &params);
            let ids = cover_ids(&kept);
            pick_by_draw(ids, draw)
        };
        assert(cover_id == chosen_cover(*manga, all, draw));
        let ghost old_data = self.contents.data@;
        let mut m = match self.contents.data.remove(&manga.id) {
            Some(m) => m,
            None => PMangaObject::new(),
        };
        assert(m.covers@ =~= covers_or_empty(old_data, manga.id));
        assert(m.chapters@ =~= chapters_or_empty(old_data, manga.id));
        m.covers.push(cover_id);
        self.contents.data.insert(manga.id, m);
        assert(self.contents.data@.dom() =~= old_data.dom().insert(manga.id));
        Ok(())
    }

    /// Adds manga `manga`, with one cover: the one it names when it is
    /// among `covers`, else one drawn at random among the covers of the
    /// manga.
    pub fn add_manga(&mut self, manga: &MangaEntry, covers: Vec<CoverEntry>) -> (r: Result<
        (),
        ManagerError,
    >)
        requires
            manga_cover_available(*manga, covers@),
        ensures
            same_settings(old(self)@, final(self)@),
            r is Ok <==> first_of_type(manga.relationships@, RelationshipType::CoverArt) is Some,
            r matches Err(e) ==> is_missing(e, RelationshipType::CoverArt) && final(self)@.data == old(
                self,
            )@.data,
            r is Ok ==> exists|draw: u64|
                manga_set(
                    old(self)@.data,
                    final(self)@.data,
                    manga.id,
                    covers_or_empty(old(self)@.data, manga.id).push(
                        #[trigger] chosen_cover(*manga, covers@, draw),
                    ),
                    chapters_or_empty(old(self)@.data, manga.id),
                ),
    {
        let draw = random_u64();
        let ghost c = covers@;
        let r = self.add_manga_by_draw(manga, covers, draw);
        proof {
            if r is Ok {
                assert(manga_set(
                    old(self)@.data,
                    self@.data,
                    manga.id,
                    covers_or_empty(old(self)@.data, manga.id).push(chosen_cover(*manga, c, draw)),
                    chapters_or_empty(old(self)@.data, manga.id),
                ));
            }
        }
        r
    }
}

/// The name of the metadata file of object `id`.
pub open spec fn json_name(id: u128) -> Seq<char> {
    hyphenated(id) + ".json"@
}

/// The files of one cover: its metadata and, when its file name is known,
/// its image.
pub open spec fn cover_files(d: DirsOptions, id: u128, names: Map<u128, String>) -> Seq<Seq<char>> {
    seq![spec_covers_add(d, json_name(id))] + if names.contains_key(id) {
        seq![spec_cover_images_add(d, names[id]@)]
    } else {
        Seq::empty()
    }
}

/// The files of the covers, in order.
pub open spec fn covers_files(d: DirsOptions, covers: Seq<u128>, names: Map<u128, String>) -> Seq<
    Seq<char>,
>
    decreases covers.len(),
{
    if covers.len() == 0 {
        Seq::empty()
    } else {
        covers_files(d, covers.drop_last(), names) + cover_files(d, covers.last(), names)
    }
}

/// The files of one chapter: its metadata, then its images in each quality.
pub open spec fn chapter_files(d: DirsOptions, id: u128, c: PChapterObject) -> Seq<Seq<char>> {
    seq![spec_join(spec_chapters_id_add(d, id), "data.json"@)] + views(c.data@).map_values(
        |f: Seq<char>| spec_join(spec_chapters_id_data_add(d, id), f),
    ) + views(c.data_saver@).map_values(
        |f: Seq<char>| spec_join(spec_chapters_id_data_saver_add(d, id), f),
    )
}

/// The files of the chapters taken in `order`.
pub open spec fn chapters_files(
    d: DirsOptions,
    order: Seq<u128>,
    chapters: Map<u128, PChapterObject>,
) -> Seq<Seq<char>>
    decreases order.len(),
{
    if order.len() == 0 {
        Seq::empty()
    } else {
        chapters_files(d, order.drop_last(), chapters) + chapter_files(
            d,
            order.last(),
            chapters[order.last()],
        )
    }
}

/// The files of one manga: its metadata, its covers, then its chapters in
/// `chapter_order`.
pub open spec fn manga_files(
    d: DirsOptions,
    k: u128,
    m: PMangaObject,
    names: Map<u128, String>,
    chapter_order: Seq<u128>,
) -> Seq<Seq<char>> {
    seq![spec_mangas_add(d, json_name(k))] + covers_files(d, m.covers@, names) + chapters_files(
        d,
        chapter_order,
        m.chapters@,
    )
}

/// The files of the mangas taken in `order`, each with its chapters in the
/// order that `chapter_orders` gives.
pub open spec fn mangas_files(
    d: DirsOptions,
    order: Seq<u128>,
    data: Map<u128, PMangaObject>,
    names: Map<u128, String>,
    chapter_orders: Map<u128, Seq<u128>>,
) -> Seq<Seq<char>>
    decreases order.len(),
{
    if order.len() == 0 {
        Seq::empty()
    } else {
        mangas_files(d, order.drop_last(), data, names, chapter_orders) + manga_files(
            d,
            order.last(),
            data[order.last()],
            names,
            chapter_orders[order.last()],
        )
    }
}

/// `order` lists each element of `s` once.
pub open spec fn enumerates(order: Seq<u128>, s: Set<u128>) -> bool {
    order.no_duplicates() && order.to_set() == s
}

proof fn lemma_views_push(v: Seq<String>, x: String)
    ensures
        views(v.push(x)) == views(v).push(x@),
{
    assert(views(v.push(x)) =~= views(v).push(x@));
}

proof fn lemma_map_take_step(s: Seq<Seq<char>>, i: int, f: spec_fn(Seq<char>) -> Seq<char>)
    requires
        0 <= i < s.len(),
    ensures
        s.take(i + 1).map_values(f) == s.take(i).map_values(f).push(f(s[i])),
{
    assert(s.take(i + 1).map_values(f) =~= s.take(i).map_values(f).push(f(s[i])));
}

/// The metadata file name of object `id`.
fn json_file(id: u128) -> (r: String)
    ensures
        r@ == json_name(id),
{
    let mut name = uuid_text(id);
    let ext = ".json";
    name.append(ext);
    name
}

/// Appends the files of chapter `id` to `out`.
fn push_chapter_files(d: &DirsOptions, id: u128, c: &PChapterObject, out: &mut Vec<String>)
    ensures
        views(final(out)@) == views(old(out)@) + chapter_files(*d, id, *c),
{
    let dir = d.chapters_id_add(id);
    let meta = "data.json";
    let ghost start = out@;
    let first = path_join(dir.as_str(), meta);
    out.push(first);
    proof {
        lemma_views_push(start, first);
    }
    let ghost base = views(out@);
    assert(views(c.data@).take(0).map_values(
        |f: Seq<char>| spec_join(spec_chapters_id_data_add(*d, id), f),
    ) =~= Seq::<Seq<char>>::empty());
    assert(base + Seq::<Seq<char>>::empty() =~= base);
    let data_dir = d.chapters_id_data_add(id);
    let mut i: usize = 0;
    while i < c.data.len()
        invariant
            0 <= i <= c.data@.len(),
            data_dir@ == spec_chapters_id_data_add(*d, id),
            views(out@) == base + views(c.data@).take(i as int).map_values(
                |f: Seq<char>| spec_join(spec_chapters_id_data_add(*d, id), f),
            ),
        decreases c.data@.len() - i,
    {
        let ghost prev = out@;
        let path = path_join(data_dir.as_str(), c.data[i].as_str());
        out.push(path);
        proof {
            lemma_views_push(prev, path);
            assert(views(c.data@)[i as int] == c.data@[i as int]@);
            lemma_map_take_step(
                views(c.data@),
                i as int,
                |f: Seq<char>| spec_join(spec_chapters_id_data_add(*d, id), f),
            );
        }
        i = i + 1;
        assert(views(out@) =~= base + views(c.data@).take(i as int).map_values(
            |f: Seq<char>| spec_join(spec_chapters_id_data_add(*d, id), f),
        ));
    }
    assert(views(c.data@).take(c.data@.len() as int) =~= views(c.data@));
    let ghost mid = views(out@);
    let saver_dir = d.chapters_id_data_saver_add(id);
    assert(views(c.data_saver@).take(0).map_values(
        |f: Seq<char>| spec_join(spec_chapters_id_data_saver_add(*d, id), f),
    ) =~= Seq::<Seq<char>>::empty());
    assert(mid + Seq::<Seq<char>>::empty() =~= mid);
    let mut j: usize = 0;
    while j < c.data_saver.len()
        invariant
            0 <= j <= c.data_saver@.len(),
            saver_dir@ == spec_chapters_id_data_saver_add(*d, id),
            views(out@) == mid + views(c.data_saver@).take(j as int).map_values(
                |f: Seq<char>| spec_join(spec_chapters_id_data_saver_add(*d, id), f),
            ),
        decreases c.data_saver@.len() - j,
    {
        let ghost prev = out@;
        let path = path_join(saver_dir.as_str(), c.data_saver[j].as_str());
        out.push(path);
        proof {
            lemma_views_push(prev, path);
            assert(views(c.data_saver@)[j as int] == c.data_saver@[j as int]@);
            lemma_map_take_step(
                views(c.data_saver@),
                j as int,
                |f: Seq<char>| spec_join(spec_chapters_id_data_saver_add(*d, id), f),
            );
        }
        j = j + 1;
        assert(views(out@) =~= mid + views(c.data_saver@).take(j as int).map_values(
            |f: Seq<char>| spec_join(spec_chapters_id_data_saver_add(*d, id), f),
        ));
    }
    assert(views(c.data_saver@).take(c.data_saver@.len() as int) =~= views(c.data_saver@));
    assert(views(out@) =~= views(old(out)@) + chapter_files(*d, id, *c));
}

impl Builder {
    /// The files that the package is made of, as the paths of the layout it
    /// reads from: for each manga its metadata, its covers (metadata, and
    /// image when its file name is in `cover_file_names`) and its chapters
    /// (metadata and images). Mangas and chapters come in the order that
    /// their tables are walked.
    pub fn get_to_use_paths(&self, cover_file_names: &HashMap<u128, String>) -> (r: Vec<String>)
        ensures
            exists|order: Seq<u128>, chapter_orders: Map<u128, Seq<u128>>|
                enumerates(order, self@.data.dom()) && (forall|k: u128|
                    #[trigger] self@.data.contains_key(k) ==> enumerates(
                        chapter_orders[k],
                        self@.data[k].chapters@.dom(),
                    )) && views(r@) == #[trigger] mangas_files(
                    self@.initial_dir_options,
                    order,
                    self@.data,
                    cover_file_names@,
                    chapter_orders,
                ),
    {
        let d = &self.initial_dir_options;
        let data = &self.contents.data;
        let names = cover_file_names;
        let keys = collect_keys(data);
        let mut out: Vec<String> = Vec::new();
        let ghost mut chapter_orders: Map<u128, Seq<u128>> = Map::empty();
        let mut i: usize = 0;
        assert(keys@.take(0) =~= Seq::<u128>::empty());
        while i < keys.len()
            invariant
                0 <= i <= keys@.len(),
                keys@.no_duplicates(),
                keys@.to_set() == data@.dom(),
                forall|k: u128| #[trigger] data@.contains_key(k) && keys@.take(i as int).contains(k) ==> enumerates(
                    chapter_orders[k],
                    data@[k].chapters@.dom(),
                ),
                views(out@) == mangas_files(*d, keys@.take(i as int), data@, names@, chapter_orders),
            decreases keys@.len() - i,
        {
            let k = keys[i];
            assert(keys@.contains(k));
            assert(data@.contains_key(k));
            let m = data.get(&k).unwrap();
            let ghost before = out@;
            let manga_meta = d.mangas_add(json_file(k).as_str());
            out.push(manga_meta);
            proof {
                lemma_views_push(before, manga_meta);
            }
            let ghost after_meta = views(out@);
            assert(m.covers@.take(0) =~= Seq::<u128>::empty());
            assert(after_meta + Seq::<Seq<char>>::empty() =~= after_meta);
            let mut c: usize = 0;
            while c < m.covers.len()
                invariant
                    0 <= c <= m.covers@.len(),
                    views(out@) == after_meta + covers_files(*d, m.covers@.take(c as int), names@),
                decreases m.covers@.len() - c,
            {
                let cid = m.covers[c];
                let ghost pre = out@;
                let meta_path = d.covers_add(json_file(cid).as_str());
                out.push(meta_path);
                proof {
                    lemma_views_push(pre, meta_path);
                }
                match names.get(&cid) {
                    Some(name) => {
                        let ghost pre2 = out@;
                        let image_path = d.cover_images_add(name.as_str());
                        out.push(image_path);
                        proof {
                            lemma_views_push(pre2, image_path);
                        }
                    },
                    None => {},
                }
                assert(views(out@) =~= views(pre) + cover_files(*d, cid, names@));
                assert(m.covers@.take(c + 1).drop_last() =~= m.covers@.take(c as int));
                c = c + 1;
                assert(views(out@) =~= after_meta + covers_files(*d, m.covers@.take(c as int), names@));
            }
            assert(m.covers@.take(m.covers@.len() as int) =~= m.covers@);
            let ghost after_covers = views(out@);
            let chapter_keys = collect_keys(&m.chapters);
            assert(after_covers + Seq::<Seq<char>>::empty() =~= after_covers);
            let mut h: usize = 0;
            assert(chapter_keys@.take(0) =~= Seq::<u128>::empty());
            while h < chapter_keys.len()
                invariant
                    0 <= h <= chapter_keys@.len(),
                    chapter_keys@.to_set() == m.chapters@.dom(),
                    views(out@) == after_covers + chapters_files(
                        *d,
                        chapter_keys@.take(h as int),
                        m.chapters@,
                    ),
                decreases chapter_keys@.len() - h,
            {
                let ck = chapter_keys[h];
                assert(chapter_keys@.contains(ck));
                let ch = m.chapters.get(&ck).unwrap();
                push_chapter_files(d, ck, ch, &mut out);
                assert(chapter_keys@.take(h + 1).drop_last() =~= chapter_keys@.take(h as int));
                h = h + 1;
                assert(views(out@) =~= after_covers + chapters_files(
                    *d,
                    chapter_keys@.take(h as int),
                    m.chapters@,
                ));
            }
            assert(chapter_keys@.take(chapter_keys@.len() as int) =~= chapter_keys@);
            let ghost old_orders = chapter_orders;
            proof {
                chapter_orders = chapter_orders.insert(k, chapter_keys@);
            }
            assert(keys@.take(i + 1).drop_last() =~= keys@.take(i as int));
            assert(mangas_files(*d, keys@.take(i as int), data@, names@, chapter_orders)
                == mangas_files(*d, keys@.take(i as int), data@, names@, old_orders)) by {
                lemma_mangas_files_orders(*d, keys@.take(i as int), data@, names@, old_orders, chapter_orders);
            }
            i = i + 1;
            assert(views(out@) =~= mangas_files(*d, keys@.take(i as int), data@, names@, chapter_orders));
            assert forall|q: u128| #[trigger] data@.contains_key(q) && keys@.take(i as int).contains(q) implies enumerates(
                chapter_orders[q],
                data@[q].chapters@.dom(),
            ) by {
                if q != k {
                    let j = choose|j: int| 0 <= j < keys@.take(i as int).len() && keys@.take(i as int)[j] == q;
                    assert(keys@.take(i - 1).contains(q)) by {
                        assert(keys@.take(i - 1)[j] == q);
                    }
                }
            }
        }
        assert(keys@.take(keys@.len() as int) =~= keys@);
        assert(enumerates(keys@, self@.data.dom()));
        assert(views(out@) == mangas_files(
            self@.initial_dir_options,
            keys@,
            self@.data,
            cover_file_names@,
            chapter_orders,
        ));
        out
    }
}

proof fn lemma_mangas_files_orders(
    d: DirsOptions,
    order: Seq<u128>,
    data: Map<u128, PMangaObject>,
    names: Map<u128, String>,
    a: Map<u128, Seq<u128>>,
    b: Map<u128, Seq<u128>>,
)
    requires
        forall|k: u128| #[trigger] order.contains(k) ==> a[k] == b[k],
    ensures
        mangas_files(d, order, data, names, a) == mangas_files(d, order, data, names, b),
    decreases order.len(),
{
    if order.len() > 0 {
        assert forall|k: u128| #[trigger] order.drop_last().contains(k) implies a[k] == b[k] by {
            let j = choose|j: int| 0 <= j < order.drop_last().len() && order.drop_last()[j] == k;
            assert(order[j] == k);
            assert(order.contains(k));
        }
        lemma_mangas_files_orders(d, order.drop_last(), data, names, a, b);
        assert(order.contains(order.last())) by {
            assert(order[order.len() - 1] == order.last());
        }
    }
}

} // verus!
