//! Where the manager keeps its data on disk, and how a layout is checked.

use vstd::prelude::*;
use vstd::string::*;

use crate::ids::{hyphenated, uuid_text};
use crate::paths::{is_absolute, path_join, spec_is_absolute, spec_join, spec_starts_with, starts_with};

verus! {

/// The directories of a local store.
#[derive(Debug)]
pub struct DirsOptions {
    pub data_dir: String,
    pub chapters: String,
    pub mangas: String,
    pub covers: String,
    pub init_dirs_if_not_exists: Option<bool>,
}

/// Which directory of a layout is missing.
#[derive(Debug, Clone, Copy, PartialEq, Eq, Structural)]
pub enum DirsOptionsVerificationError {
    DataRoot,
    History,
    Chapters,
    Covers,
    CoverImages,
    Mangas,
}

impl DirsOptionsVerificationError {
    /// The message that describes the error.
    pub fn message(&self) -> (r: &'static str)
        ensures
            r@ == spec_verification_message(*self),
    {
        match self {
            DirsOptionsVerificationError::DataRoot => "The data dir doesn:t exist",
            DirsOptionsVerificationError::History => "The history dir doesn:t exist",
            DirsOptionsVerificationError::Chapters => "The chapters dir doesn:t exist",
            DirsOptionsVerificationError::Covers => "The covers dir doesn:t exist",
            DirsOptionsVerificationError::CoverImages => "The covers images dir doesn:t exist",
            DirsOptionsVerificationError::Mangas => "The mangas dir doesn't exist",
        }
    }
}

/// The message of each verification error.
pub open spec fn spec_verification_message(e: DirsOptionsVerificationError) -> Seq<char> {
    match e {
        DirsOptionsVerificationError::DataRoot => "The data dir doesn:t exist"@,
        DirsOptionsVerificationError::History => "The history dir doesn:t exist"@,
        DirsOptionsVerificationError::Chapters => "The chapters dir doesn:t exist"@,
        DirsOptionsVerificationError::Covers => "The covers dir doesn:t exist"@,
        DirsOptionsVerificationError::CoverImages => "The covers images dir doesn:t exist"@,
        DirsOptionsVerificationError::Mangas => "The mangas dir doesn't exist"@,
    }
}

/// The layout rooted at `data_dir`.
pub open spec fn spec_new_from_data_dir(data_dir: Seq<char>) -> (
    Seq<char>,
    Seq<char>,
    Seq<char>,
    Seq<char>,
) {
    (
        data_dir,
        spec_join(data_dir, "chapters"@),
        spec_join(data_dir, "mangas"@),
        spec_join(data_dir, "covers"@),
    )
}

/// `path` inside the data directory.
pub open spec fn spec_data_dir_add(o: DirsOptions, path: Seq<char>) -> Seq<char> {
    spec_join(o.data_dir@, path)
}

/// `path` inside the history directory.
pub open spec fn spec_history_add(o: DirsOptions, path: Seq<char>) -> Seq<char> {
    spec_join(spec_data_dir_add(o, "history"@), path)
}

/// `path` inside the covers directory: the covers directory is taken as it
/// is when it is absolute or already inside the data directory, and inside
/// the data directory otherwise.
pub open spec fn spec_covers_add(o: DirsOptions, path: Seq<char>) -> Seq<char> {
    if spec_is_absolute(o.covers@) || spec_starts_with(o.covers@, o.data_dir@) {
        spec_join(o.covers@, path)
    } else {
        spec_join(spec_data_dir_add(o, o.covers@), path)
    }
}

/// `path` inside the cover images directory.
pub open spec fn spec_cover_images_add(o: DirsOptions, path: Seq<char>) -> Seq<char> {
    spec_join(spec_covers_add(o, "images"@), path)
}

/// `path` inside the mangas directory, placed as the covers directory is.
pub open spec fn spec_mangas_add(o: DirsOptions, path: Seq<char>) -> Seq<char> {
    if spec_is_absolute(o.mangas@) || spec_starts_with(o.mangas@, o.data_dir@) {
        spec_join(o.mangas@, path)
    } else {
        spec_join(spec_data_dir_add(o, o.mangas@), path)
    }
}

/// `path` inside the chapters directory, placed as the covers directory is.
pub open spec fn spec_chapters_add(o: DirsOptions, path: Seq<char>) -> Seq<char> {
    if spec_is_absolute(o.chapters@) || spec_starts_with(o.chapters@, o.data_dir@) {
        spec_join(o.chapters@, path)
    } else {
        spec_join(spec_data_dir_add(o, o.chapters@), path)
    }
}

/// The directory of chapter `id`.
pub open spec fn spec_chapters_id_add(o: DirsOptions, id: u128) -> Seq<char> {
    spec_chapters_add(o, hyphenated(id))
}

/// The directory of the full-quality images of chapter `id`.
pub open spec fn spec_chapters_id_data_add(o: DirsOptions, id: u128) -> Seq<char> {
    spec_join(spec_chapters_id_add(o, id), "data"@)
}

/// The directory of the reduced-quality images of chapter `id`.
pub open spec fn spec_chapters_id_data_saver_add(o: DirsOptions, id: u128) -> Seq<char> {
    spec_join(spec_chapters_id_add(o, id), "data-saver"@)
}

/// The directories that a layout must have, in the order they are checked:
/// data, history, chapters, covers, cover images, mangas.
pub open spec fn spec_verification_paths(o: DirsOptions) -> Seq<Seq<char>> {
    seq![
        o.data_dir@,
        spec_history_add(o, Seq::empty()),
        o.chapters@,
        o.covers@,
        spec_cover_images_add(o, Seq::empty()),
        o.mangas@,
    ]
}

/// The error reported when the directory at position `i` of
/// `spec_verification_paths` is missing.
pub open spec fn verification_error_at(i: int) -> DirsOptionsVerificationError {
    if i == 0 {
        DirsOptionsVerificationError::DataRoot
    } else if i == 1 {
        DirsOptionsVerificationError::History
    } else if i == 2 {
        DirsOptionsVerificationError::Chapters
    } else if i == 3 {
        DirsOptionsVerificationError::Covers
    } else if i == 4 {
        DirsOptionsVerificationError::CoverImages
    } else {
        DirsOptionsVerificationError::Mangas
    }
}

/// The outcome of checking a layout whose directories exist as `present` says:
/// the error of the first missing one, or success when none is missing.
pub open spec fn spec_verify(present: Seq<bool>) -> Result<(), DirsOptionsVerificationError> {
    if exists|i: int| 0 <= i < present.len() && !present[i] {
        Err(verification_error_at(choose|i: int| 0 <= i < present.len() && !present[i] && forall|j: int| 0 <= j < i ==> present[j]))
    } else {
        Ok(())
    }
}

impl Clone for DirsOptions {
    fn clone(&self) -> (r: Self)
        ensures
            r == *self,
    {
        DirsOptions {
            data_dir: self.data_dir.clone(),
            chapters: self.chapters.clone(),
            mangas: self.mangas.clone(),
            covers: self.covers.clone(),
            init_dirs_if_not_exists: self.init_dirs_if_not_exists,
        }
    }
}

impl Default for DirsOptions {
    /// The layout rooted at the current directory.
    fn default() -> (r: DirsOptions)
        ensures
            (r.data_dir@, r.chapters@, r.mangas@, r.covers@) == spec_new_from_data_dir(Seq::empty()),
            r.init_dirs_if_not_exists == Some(true),
    {
        let empty = "";
        proof {
            reveal_strlit("");
        }
        DirsOptions::new_from_data_dir(empty)
    }
}

impl DirsOptions {
    /// A layout with every directory inside `data_dir`, created on demand.
    pub fn new_from_data_dir(data_dir: &str) -> (r: DirsOptions)
        ensures
            (r.data_dir@, r.chapters@, r.mangas@, r.covers@) == spec_new_from_data_dir(data_dir@),
            r.init_dirs_if_not_exists == Some(true),
    {
        let chapters = "chapters";
        let mangas = "mangas";
        let covers = "covers";
        DirsOptions {
            chapters: path_join(data_dir, chapters),
            mangas: path_join(data_dir, mangas),
            covers: path_join(data_dir, covers),
            init_dirs_if_not_exists: Some(true),
            data_dir: String::from_str(data_dir),
        }
    }

    /// `path` inside the data directory.
    pub fn data_dir_add(&self, path: &str) -> (r: String)
        ensures
            r@ == spec_data_dir_add(*self, path@),
    {
        path_join(self.data_dir.as_str(), path)
    }

    /// `path` inside the history directory.
    pub fn history_add(&self, path: &str) -> (r: String)
        ensures
            r@ == spec_history_add(*self, path@),
    {
        let history = self.data_dir_add("history");
        path_join(history.as_str(), path)
    }

    /// `path` inside the covers directory.
    pub fn covers_add(&self, path: &str) -> (r: String)
        ensures
            r@ == spec_covers_add(*self, path@),
    {
        if is_absolute(self.covers.as_str()) || starts_with(
            self.covers.as_str(),
            self.data_dir.as_str(),
        ) {
            path_join(self.covers.as_str(), path)
        } else {
            let inner = self.data_dir_add(self.covers.as_str());
            path_join(inner.as_str(), path)
        }
    }

    /// `path` inside the cover images directory.
    pub fn cover_images_add(&self, path: &str) -> (r: String)
        ensures
            r@ == spec_cover_images_add(*self, path@),
    {
        let images = self.covers_add("images");
        path_join(images.as_str(), path)
    }

    /// `path` inside the mangas directory.
    pub fn mangas_add(&self, path: &str) -> (r: String)
        ensures
            r@ == spec_mangas_add(*self, path@),
    {
        if is_absolute(self.mangas.as_str()) || starts_with(
            self.mangas.as_str(),
            self.data_dir.as_str(),
        ) {
            path_join(self.mangas.as_str(), path)
        } else {
            let inner = self.data_dir_add(self.mangas.as_str());
            path_join(inner.as_str(), path)
        }
    }

    /// `path` inside the chapters directory.
    pub fn chapters_add(&self, path: &str) -> (r: String)
        ensures
            r@ == spec_chapters_add(*self, path@),
    {
        if is_absolute(self.chapters.as_str()) || starts_with(
            self.chapters.as_str(),
            self.data_dir.as_str(),
        ) {
            path_join(self.chapters.as_str(), path)
        } else {
            let inner = self.data_dir_add(self.chapters.as_str());
            path_join(inner.as_str(), path)
        }
    }

    /// The directory of chapter `id`.
    pub fn chapters_id_add(&self, id: u128) -> (r: String)
        ensures
            r@ == spec_chapters_id_add(*self, id),
    {
        let name = uuid_text(id);
        self.chapters_add(name.as_str())
    }

    /// The directory of the full-quality images of chapter `id`.
    pub fn chapters_id_data_add(&self, id: u128) -> (r: String)
        ensures
            r@ == spec_chapters_id_data_add(*self, id),
    {
        let dir = self.chapters_id_add(id);
        let data = "data";
        proof {
            reveal_strlit("data");
        }
        path_join(dir.as_str(), data)
    }

    /// The directory of the reduced-quality images of chapter `id`.
    pub fn chapters_id_data_saver_add(&self, id: u128) -> (r: String)
        ensures
            r@ == spec_chapters_id_data_saver_add(*self, id),
    {
        let dir = self.chapters_id_add(id);
        let data_saver = "data-saver";
        proof {
            reveal_strlit("data-saver");
        }
        path_join(dir.as_str(), data_saver)
    }

    /// The directories to look for, in the order `verify` checks them.
    pub fn verification_paths(&self) -> (r: Vec<String>)
        ensures
            r@.len() == 6,
            forall|i: int| 0 <= i < 6 ==> #[trigger] r@[i]@ == spec_verification_paths(*self)[i],
    {
        let empty = "";
        proof {
            reveal_strlit("");
        }
        let mut r: Vec<String> = Vec::new();
        r.push(self.data_dir.clone());
        r.push(self.history_add(empty));
        r.push(self.chapters.clone());
        r.push(self.covers.clone());
        r.push(self.cover_images_add(empty));
        r.push(self.mangas.clone());
        r
    }

    /// Checks the layout given which of `verification_paths` exist: the first
    /// missing directory is reported.
    pub fn verify(&self, present: &Vec<bool>) -> (r: Result<(), DirsOptionsVerificationError>)
        requires
            present@.len() == 6,
        ensures
            r == spec_verify(present@),
            r is Ok <==> forall|i: int| 0 <= i < 6 ==> present@[i],
    {
        let mut i: usize = 0;
        while i < 6
            invariant
                present@.len() == 6,
                0 <= i <= 6,
                forall|j: int| 0 <= j < i ==> present@[j],
            decreases 6 - i,
        {
            if !present[i] {
                let e = if i == 0 {
                    DirsOptionsVerificationError::DataRoot
                } else if i == 1 {
                    DirsOptionsVerificationError::History
                } else if i == 2 {
                    DirsOptionsVerificationError::Chapters
                } else if i == 3 {
                    DirsOptionsVerificationError::Covers
                } else if i == 4 {
                    DirsOptionsVerificationError::CoverImages
                } else {
                    DirsOptionsVerificationError::Mangas
                };
                proof {
                    let w = choose|k: int|
                        0 <= k < present@.len() && !present@[k] && forall|j: int|
                            0 <= j < k ==> present@[j];
                    assert(0 <= i < present@.len() && !present@[i as int] && forall|j: int|
                        0 <= j < i ==> present@[j]);
                    assert(w == i) by {
                        if w < i {
                            assert(present@[w]);
                        } else if w > i {
                            assert(present@[i as int]);
                        }
                    }
                }
                return Err(e);
            }
            i = i + 1;
        }
        Ok(())
    }

    /// Whether the layout has to be created: exactly when `verify` fails.
    pub fn verify_and_init(&self, present: &Vec<bool>) -> (needs_init: bool)
        requires
            present@.len() == 6,
        ensures
            needs_init == (spec_verify(present@) is Err),
    {
        match self.verify(present) {
            Ok(()) => false,
            Err(_) => true,
        }
    }
}

} // verus!
