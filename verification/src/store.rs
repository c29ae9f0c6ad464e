//! The content cache: manga, chapter and page rows keyed by their
//! natural keys, plus the per-user overlay (favorite flag, read
//! progress).
//!
//! Writes are idempotent "insert, ignore conflict" against the natural
//! keys, so no two rows ever share one; shared metadata is refined in
//! place and never overwritten with empty values once populated; page
//! rows alone can be deleted, for a forced refresh.

use vstd::prelude::*;

verus! {

/// A cached manga: shared, source-scoped metadata. Identity is the
/// (source, path) pair; the surrogate `id` is assigned at first insert.
#[derive(Debug)]
pub struct MangaRow {
    pub id: u64,
    pub source: String,
    pub path: String,
    pub title: String,
    pub thumbnail_url: String,
    pub author: Vec<String>,
    pub status: Option<String>,
    pub description: Option<String>,
}

/// The mathematical value of a [`MangaRow`].
#[verifier::ext_equal]
pub struct MangaRowModel {
    pub id: u64,
    pub source: Seq<char>,
    pub path: Seq<char>,
    pub title: Seq<char>,
    pub thumbnail_url: Seq<char>,
    pub author: Seq<Seq<char>>,
    pub status: Option<Seq<char>>,
    pub description: Option<Seq<char>>,
}

impl View for MangaRow {
    type V = MangaRowModel;

    open spec fn view(&self) -> MangaRowModel {
        MangaRowModel {
            id: self.id,
            source: self.source@,
            path: self.path@,
            title: self.title@,
            thumbnail_url: self.thumbnail_url@,
            author: self.author.deep_view(),
            status: self.status.deep_view(),
            description: self.description.deep_view(),
        }
    }
}

impl DeepView for MangaRow {
    type V = MangaRowModel;

    open spec fn deep_view(&self) -> MangaRowModel {
        self@
    }
}

/// A cached chapter of one manga. Identity is the
/// (manga, chapter number) pair.
#[derive(Debug)]
pub struct ChapterRow {
    pub id: u64,
    pub manga_id: u64,
    pub number: String,
    pub path: String,
    pub uploaded: i64,
}

/// The mathematical value of a [`ChapterRow`].
#[verifier::ext_equal]
pub struct ChapterRowModel {
    pub id: u64,
    pub manga_id: u64,
    pub number: Seq<char>,
    pub path: Seq<char>,
    pub uploaded: i64,
}

impl View for ChapterRow {
    type V = ChapterRowModel;

    open spec fn view(&self) -> ChapterRowModel {
        ChapterRowModel {
            id: self.id,
            manga_id: self.manga_id,
            number: self.number@,
            path: self.path@,
            uploaded: self.uploaded,
        }
    }
}

impl DeepView for ChapterRow {
    type V = ChapterRowModel;

    open spec fn deep_view(&self) -> ChapterRowModel {
        self@
    }
}

/// A cached page of one chapter. Identity is the (chapter, rank) pair;
/// `url` is the provider-relative image reference.
#[derive(Debug)]
pub struct PageRow {
    pub id: u64,
    pub chapter_id: u64,
    pub rank: u64,
    pub url: String,
}

/// The mathematical value of a [`PageRow`].
#[verifier::ext_equal]
pub struct PageRowModel {
    pub id: u64,
    pub chapter_id: u64,
    pub rank: u64,
    pub url: Seq<char>,
}

impl View for PageRow {
    type V = PageRowModel;

    open spec fn view(&self) -> PageRowModel {
        PageRowModel { id: self.id, chapter_id: self.chapter_id, rank: self.rank, url: self.url@ }
    }
}

impl DeepView for PageRow {
    type V = PageRowModel;

    open spec fn deep_view(&self) -> PageRowModel {
        self@
    }
}

/// One overlay row: the user has marked the manga a favorite.
#[derive(Debug)]
pub struct FavoriteRow {
    pub user: String,
    pub manga_id: u64,
}

/// The mathematical value of a [`FavoriteRow`].
#[verifier::ext_equal]
pub struct FavoriteRowModel {
    pub user: Seq<char>,
    pub manga_id: u64,
}

impl View for FavoriteRow {
    type V = FavoriteRowModel;

    open spec fn view(&self) -> FavoriteRowModel {
        FavoriteRowModel { user: self.user@, manga_id: self.manga_id }
    }
}

impl DeepView for FavoriteRow {
    type V = FavoriteRowModel;

    open spec fn deep_view(&self) -> FavoriteRowModel {
        self@
    }
}

/// One overlay row: how many pages of the chapter the user has read.
#[derive(Debug)]
pub struct ReadRow {
    pub user: String,
    pub chapter_id: u64,
    pub pages_read: u64,
}

/// The mathematical value of a [`ReadRow`].
#[verifier::ext_equal]
pub struct ReadRowModel {
    pub user: Seq<char>,
    pub chapter_id: u64,
    pub pages_read: u64,
}

impl View for ReadRow {
    type V = ReadRowModel;

    open spec fn view(&self) -> ReadRowModel {
        ReadRowModel { user: self.user@, chapter_id: self.chapter_id, pages_read: self.pages_read }
    }
}

impl DeepView for ReadRow {
    type V = ReadRowModel;

    open spec fn deep_view(&self) -> ReadRowModel {
        self@
    }
}

/// What a provider's listing hands over for one manga.
#[derive(Debug)]
pub struct MangaInput {
    pub title: String,
    pub path: String,
    pub thumbnail_url: String,
}

/// The mathematical value of a [`MangaInput`].
#[verifier::ext_equal]
pub struct MangaInputModel {
    pub title: Seq<char>,
    pub path: Seq<char>,
    pub thumbnail_url: Seq<char>,
}

impl View for MangaInput {
    type V = MangaInputModel;

    open spec fn view(&self) -> MangaInputModel {
        MangaInputModel { title: self.title@, path: self.path@, thumbnail_url: self.thumbnail_url@ }
    }
}

impl DeepView for MangaInput {
    type V = MangaInputModel;

    open spec fn deep_view(&self) -> MangaInputModel {
        self@
    }
}

/// What a provider's detail fetch hands over: the fields that refine a
/// cached manga row.
#[derive(Debug)]
pub struct MangaFetch {
    pub author: Vec<String>,
    pub status: Option<String>,
    pub description: Option<String>,
}

/// The mathematical value of a [`MangaFetch`].
#[verifier::ext_equal]
pub struct MangaFetchModel {
    pub author: Seq<Seq<char>>,
    pub status: Option<Seq<char>>,
    pub description: Option<Seq<char>>,
}

impl View for MangaFetch {
    type V = MangaFetchModel;

    open spec fn view(&self) -> MangaFetchModel {
        MangaFetchModel {
            author: self.author.deep_view(),
            status: self.status.deep_view(),
            description: self.description.deep_view(),
        }
    }
}

/// What a provider's chapter listing hands over for one chapter.
#[derive(Debug)]
pub struct ChapterInput {
    pub number: String,
    pub path: String,
    pub uploaded: i64,
}

/// The mathematical value of a [`ChapterInput`].
#[verifier::ext_equal]
pub struct ChapterInputModel {
    pub number: Seq<char>,
    pub path: Seq<char>,
    pub uploaded: i64,
}

impl View for ChapterInput {
    type V = ChapterInputModel;

    open spec fn view(&self) -> ChapterInputModel {
        ChapterInputModel { number: self.number@, path: self.path@, uploaded: self.uploaded }
    }
}

impl DeepView for ChapterInput {
    type V = ChapterInputModel;

    open spec fn deep_view(&self) -> ChapterInputModel {
        self@
    }
}

/// One manga of a listing, with the requesting user's overlay.
#[derive(Debug)]
pub struct MangaSummary {
    pub id: u64,
    pub title: String,
    pub thumbnail_url: String,
    pub is_favorite: bool,
}

/// The mathematical value of a [`MangaSummary`].
#[verifier::ext_equal]
pub struct MangaSummaryModel {
    pub id: u64,
    pub title: Seq<char>,
    pub thumbnail_url: Seq<char>,
    pub is_favorite: bool,
}

impl View for MangaSummary {
    type V = MangaSummaryModel;

    open spec fn view(&self) -> MangaSummaryModel {
        MangaSummaryModel {
            id: self.id,
            title: self.title@,
            thumbnail_url: self.thumbnail_url@,
            is_favorite: self.is_favorite,
        }
    }
}

impl DeepView for MangaSummary {
    type V = MangaSummaryModel;

    open spec fn deep_view(&self) -> MangaSummaryModel {
        self@
    }
}

/// The full cached metadata of one manga, with the requesting user's
/// overlay: a consistent snapshot of shared fields plus per-user state.
#[derive(Debug)]
pub struct MangaDetail {
    pub id: u64,
    pub source: String,
    pub path: String,
    pub title: String,
    pub thumbnail_url: String,
    pub author: Vec<String>,
    pub status: Option<String>,
    pub description: Option<String>,
    pub is_favorite: bool,
}

/// The mathematical value of a [`MangaDetail`].
#[verifier::ext_equal]
pub struct MangaDetailModel {
    pub id: u64,
    pub source: Seq<char>,
    pub path: Seq<char>,
    pub title: Seq<char>,
    pub thumbnail_url: Seq<char>,
    pub author: Seq<Seq<char>>,
    pub status: Option<Seq<char>>,
    pub description: Option<Seq<char>>,
    pub is_favorite: bool,
}

impl View for MangaDetail {
    type V = MangaDetailModel;

    open spec fn view(&self) -> MangaDetailModel {
        MangaDetailModel {
            id: self.id,
            source: self.source@,
            path: self.path@,
            title: self.title@,
            thumbnail_url: self.thumbnail_url@,
            author: self.author.deep_view(),
            status: self.status.deep_view(),
            description: self.description.deep_view(),
            is_favorite: self.is_favorite,
        }
    }
}

/// A cached detail is complete when status, author list and
/// description are all present; only then does it satisfy a read
/// without a forced refresh.
pub open spec fn spec_detail_complete(d: MangaDetailModel) -> bool {
    &&& d.status is Some
    &&& d.author.len() > 0
    &&& d.description is Some
}

/// One chapter of a manga, with the requesting user's read progress.
#[derive(Debug)]
pub struct ChapterView {
    pub id: u64,
    pub number: String,
    pub path: String,
    pub uploaded: i64,
    pub read: Option<u64>,
}

/// The mathematical value of a [`ChapterView`].
#[verifier::ext_equal]
pub struct ChapterViewModel {
    pub id: u64,
    pub number: Seq<char>,
    pub path: Seq<char>,
    pub uploaded: i64,
    pub read: Option<u64>,
}

impl View for ChapterView {
    type V = ChapterViewModel;

    open spec fn view(&self) -> ChapterViewModel {
        ChapterViewModel {
            id: self.id,
            number: self.number@,
            path: self.path@,
            uploaded: self.uploaded,
            read: self.read,
        }
    }
}

impl DeepView for ChapterView {
    type V = ChapterViewModel;

    open spec fn deep_view(&self) -> ChapterViewModel {
        self@
    }
}

/// The mathematical value of a [`Store`]: the five tables and the
/// next surrogate id.
#[verifier::ext_equal]
pub struct StoreModel {
    pub next_id: nat,
    pub mangas: Seq<MangaRowModel>,
    pub chapters: Seq<ChapterRowModel>,
    pub pages: Seq<PageRowModel>,
    pub favorites: Seq<FavoriteRowModel>,
    pub reads: Seq<ReadRowModel>,
}

/// No two manga rows share a surrogate id or a (source, path) pair,
/// and every id is below the next free one.
pub open spec fn mangas_wf(mangas: Seq<MangaRowModel>, next_id: nat) -> bool {
    &&& forall|i: int| 0 <= i < mangas.len() ==> (#[trigger] mangas[i]).id < next_id
    &&& forall|i: int, j: int|
        0 <= i < j < mangas.len() ==> mangas[i].id != mangas[j].id && !(mangas[i].source
            == mangas[j].source && mangas[i].path == mangas[j].path)
}

/// No two chapter rows share a surrogate id or a (manga, number) pair,
/// and every id is below the next free one.
pub open spec fn chapters_wf(chapters: Seq<ChapterRowModel>, next_id: nat) -> bool {
    &&& forall|i: int| 0 <= i < chapters.len() ==> (#[trigger] chapters[i]).id < next_id
    &&& forall|i: int, j: int|
        0 <= i < j < chapters.len() ==> chapters[i].id != chapters[j].id && !(chapters[i].manga_id
            == chapters[j].manga_id && chapters[i].number == chapters[j].number)
}

/// No two page rows share a surrogate id or a (chapter, rank) pair,
/// and every id is below the next free one.
pub open spec fn pages_wf(pages: Seq<PageRowModel>, next_id: nat) -> bool {
    &&& forall|i: int| 0 <= i < pages.len() ==> (#[trigger] pages[i]).id < next_id
    &&& forall|i: int, j: int|
        0 <= i < j < pages.len() ==> pages[i].id != pages[j].id && !(pages[i].chapter_id
            == pages[j].chapter_id && pages[i].rank == pages[j].rank)
}

/// No two favorite rows share a (user, manga) pair.
pub open spec fn favorites_wf(favorites: Seq<FavoriteRowModel>) -> bool {
    forall|i: int, j: int|
        0 <= i < j < favorites.len() ==> !(favorites[i].user == favorites[j].user
            && favorites[i].manga_id == favorites[j].manga_id)
}

/// No two read rows share a (user, chapter) pair.
pub open spec fn reads_wf(reads: Seq<ReadRowModel>) -> bool {
    forall|i: int, j: int|
        0 <= i < j < reads.len() ==> !(reads[i].user == reads[j].user && reads[i].chapter_id
            == reads[j].chapter_id)
}

impl StoreModel {
    /// Well-formedness of the whole cache: natural keys and surrogate
    /// ids unique per table.
    pub open spec fn wf(self) -> bool {
        &&& mangas_wf(self.mangas, self.next_id)
        &&& chapters_wf(self.chapters, self.next_id)
        &&& pages_wf(self.pages, self.next_id)
        &&& favorites_wf(self.favorites)
        &&& reads_wf(self.reads)
    }

    /// A manga row with this (source, path) natural key exists.
    pub open spec fn has_manga_key(self, source: Seq<char>, path: Seq<char>) -> bool {
        exists|i: int|
            0 <= i < self.mangas.len() && self.mangas[i].source == source && self.mangas[i].path
                == path
    }

    /// The index of the manga row with this natural key (unique under
    /// `wf`; meaningful only when `has_manga_key` holds).
    pub open spec fn manga_key_index(self, source: Seq<char>, path: Seq<char>) -> int {
        choose|i: int|
            0 <= i < self.mangas.len() && self.mangas[i].source == source && self.mangas[i].path
                == path
    }

    /// A manga row with this surrogate id exists.
    pub open spec fn has_manga_id(self, id: u64) -> bool {
        exists|i: int| 0 <= i < self.mangas.len() && self.mangas[i].id == id
    }

    /// The index of the manga row with this id.
    pub open spec fn manga_index(self, id: u64) -> int {
        choose|i: int| 0 <= i < self.mangas.len() && self.mangas[i].id == id
    }

    /// The manga row with this id.
    pub open spec fn manga_by_id(self, id: u64) -> MangaRowModel {
        self.mangas[self.manga_index(id)]
    }

    /// A chapter row with this surrogate id exists.
    pub open spec fn has_chapter_id(self, id: u64) -> bool {
        exists|i: int| 0 <= i < self.chapters.len() && self.chapters[i].id == id
    }

    /// The index of the chapter row with this id.
    pub open spec fn chapter_index(self, id: u64) -> int {
        choose|i: int| 0 <= i < self.chapters.len() && self.chapters[i].id == id
    }

    /// The chapter row with this id.
    pub open spec fn chapter_by_id(self, id: u64) -> ChapterRowModel {
        self.chapters[self.chapter_index(id)]
    }

    /// A chapter row with this (manga, number) natural key exists.
    pub open spec fn has_chapter_key(self, manga_id: u64, number: Seq<char>) -> bool {
        exists|i: int|
            0 <= i < self.chapters.len() && self.chapters[i].manga_id == manga_id
                && self.chapters[i].number == number
    }

    /// A page row with this surrogate id exists.
    pub open spec fn has_page_id(self, id: u64) -> bool {
        exists|i: int| 0 <= i < self.pages.len() && self.pages[i].id == id
    }

    /// The index of the page row with this id.
    pub open spec fn page_index(self, id: u64) -> int {
        choose|i: int| 0 <= i < self.pages.len() && self.pages[i].id == id
    }

    /// The page row with this id.
    pub open spec fn page_by_id(self, id: u64) -> PageRowModel {
        self.pages[self.page_index(id)]
    }

    /// A page row with this (chapter, rank) natural key exists.
    pub open spec fn has_page_key(self, chapter_id: u64, rank: u64) -> bool {
        exists|i: int|
            0 <= i < self.pages.len() && self.pages[i].chapter_id == chapter_id
                && self.pages[i].rank == rank
    }

    /// The user has marked this manga a favorite.
    pub open spec fn is_favorite(self, user: Seq<char>, manga_id: u64) -> bool {
        exists|i: int|
            0 <= i < self.favorites.len() && self.favorites[i].user == user
                && self.favorites[i].manga_id == manga_id
    }

    /// The user's read progress for this chapter, if any.
    pub open spec fn read_progress(self, user: Seq<char>, chapter_id: u64) -> Option<u64> {
        if exists|i: int|
            0 <= i < self.reads.len() && self.reads[i].user == user && self.reads[i].chapter_id
                == chapter_id {
            let i = choose|i: int|
                0 <= i < self.reads.len() && self.reads[i].user == user && self.reads[i].chapter_id
                    == chapter_id;
            Some(self.reads[i].pages_read)
        } else {
            None
        }
    }

    /// The cache after one idempotent manga upsert, and the id under
    /// which the key is now cached: an existing (source, path) row is
    /// kept untouched, otherwise a fresh row is appended under a fresh
    /// id with the listing's fields and still-unknown detail fields.
    pub open spec fn spec_upsert_manga(self, source: Seq<char>, it: MangaInputModel) -> (
        StoreModel,
        u64,
    ) {
        if self.has_manga_key(source, it.path) {
            (self, self.mangas[self.manga_key_index(source, it.path)].id)
        } else {
            (
                StoreModel {
                    next_id: self.next_id + 1,
                    mangas: self.mangas.push(
                        MangaRowModel {
                            id: self.next_id as u64,
                            source: source,
                            path: it.path,
                            title: it.title,
                            thumbnail_url: it.thumbnail_url,
                            author: Seq::empty(),
                            status: None,
                            description: None,
                        },
                    ),
                    ..self
                },
                self.next_id as u64,
            )
        }
    }

    /// The cache after upserting the listing's items from index `k`
    /// on, with the cached id of every item in listing order.
    pub open spec fn spec_insert_mangas_from(
        self,
        source: Seq<char>,
        items: Seq<MangaInputModel>,
        k: int,
    ) -> (StoreModel, Seq<u64>)
        decreases items.len() - k,
    {
        if k < 0 || k >= items.len() {
            (self, Seq::empty())
        } else {
            let (s1, id) = self.spec_upsert_manga(source, items[k]);
            let (s2, ids) = s1.spec_insert_mangas_from(source, items, k + 1);
            (s2, seq![id] + ids)
        }
    }

    /// A row refined by a detail fetch: a shared field is overwritten
    /// only when the fetch actually carries a value for it, so
    /// populated metadata never degrades to empty.
    pub open spec fn spec_refined_row(row: MangaRowModel, f: MangaFetchModel) -> MangaRowModel {
        MangaRowModel {
            author: if f.author.len() > 0 {
                f.author
            } else {
                row.author
            },
            status: if f.status is Some {
                f.status
            } else {
                row.status
            },
            description: if f.description is Some {
                f.description
            } else {
                row.description
            },
            ..row
        }
    }

    /// The cache after refining the manga row with this id in place;
    /// unchanged when no such row exists.
    pub open spec fn spec_refine_manga(self, id: u64, f: MangaFetchModel) -> StoreModel {
        if self.has_manga_id(id) {
            StoreModel {
                mangas: self.mangas.update(
                    self.manga_index(id),
                    Self::spec_refined_row(self.manga_by_id(id), f),
                ),
                ..self
            }
        } else {
            self
        }
    }

    /// A manga row as one listing entry, under this user's overlay.
    pub open spec fn spec_summary(self, user: Seq<char>, row: MangaRowModel) -> MangaSummaryModel {
        MangaSummaryModel {
            id: row.id,
            title: row.title,
            thumbnail_url: row.thumbnail_url,
            is_favorite: self.is_favorite(user, row.id),
        }
    }

    /// The listing for the ids from index `k` on: one entry per id
    /// that is cached, in the order asked for; ids with no row are
    /// skipped.
    pub open spec fn spec_summaries_from(self, user: Seq<char>, ids: Seq<u64>, k: int) -> Seq<
        MangaSummaryModel,
    >
        decreases ids.len() - k,
    {
        if k < 0 || k >= ids.len() {
            Seq::empty()
        } else {
            let rest = self.spec_summaries_from(user, ids, k + 1);
            if self.has_manga_id(ids[k]) {
                seq![self.spec_summary(user, self.manga_by_id(ids[k]))] + rest
            } else {
                rest
            }
        }
    }

    /// The full detail of the manga with this id, under this user's
    /// overlay (meaningful only when `has_manga_id` holds).
    pub open spec fn spec_detail(self, user: Seq<char>, id: u64) -> MangaDetailModel {
        let row = self.manga_by_id(id);
        MangaDetailModel {
            id: row.id,
            source: row.source,
            path: row.path,
            title: row.title,
            thumbnail_url: row.thumbnail_url,
            author: row.author,
            status: row.status,
            description: row.description,
            is_favorite: self.is_favorite(user, row.id),
        }
    }

    /// A chapter row under this user's overlay.
    pub open spec fn spec_chapter_view(self, user: Seq<char>, c: ChapterRowModel) -> ChapterViewModel {
        ChapterViewModel {
            id: c.id,
            number: c.number,
            path: c.path,
            uploaded: c.uploaded,
            read: self.read_progress(user, c.id),
        }
    }

    /// The chapters of one manga from table index `k` on, in cache
    /// order, each under this user's overlay.
    pub open spec fn spec_chapters_of_from(self, user: Seq<char>, manga_id: u64, k: int) -> Seq<
        ChapterViewModel,
    >
        decreases self.chapters.len() - k,
    {
        if k < 0 || k >= self.chapters.len() {
            Seq::empty()
        } else {
            let rest = self.spec_chapters_of_from(user, manga_id, k + 1);
            if self.chapters[k].manga_id == manga_id {
                seq![self.spec_chapter_view(user, self.chapters[k])] + rest
            } else {
                rest
            }
        }
    }

    /// The cache after one idempotent chapter upsert: an existing
    /// (manga, number) row is kept untouched, otherwise a fresh row is
    /// appended under a fresh id.
    pub open spec fn spec_upsert_chapter(self, manga_id: u64, it: ChapterInputModel) -> StoreModel {
        if self.has_chapter_key(manga_id, it.number) {
            self
        } else {
            StoreModel {
                next_id: self.next_id + 1,
                chapters: self.chapters.push(
                    ChapterRowModel {
                        id: self.next_id as u64,
                        manga_id: manga_id,
                        number: it.number,
                        path: it.path,
                        uploaded: it.uploaded,
                    },
                ),
                ..self
            }
        }
    }

    /// The cache after upserting the fetched chapters from index `k`
    /// on.
    pub open spec fn spec_insert_chapters_from(
        self,
        manga_id: u64,
        items: Seq<ChapterInputModel>,
        k: int,
    ) -> StoreModel
        decreases items.len() - k,
    {
        if k < 0 || k >= items.len() {
            self
        } else {
            self.spec_upsert_chapter(manga_id, items[k]).spec_insert_chapters_from(
                manga_id,
                items,
                k + 1,
            )
        }
    }

    /// The index of the favorite row for this (user, manga) pair.
    pub open spec fn favorite_index(self, user: Seq<char>, manga_id: u64) -> int {
        choose|i: int|
            0 <= i < self.favorites.len() && self.favorites[i].user == user
                && self.favorites[i].manga_id == manga_id
    }

    /// The cache after setting or clearing this user's favorite flag
    /// for one manga; idempotent in both directions.
    pub open spec fn spec_set_favorite(self, user: Seq<char>, manga_id: u64, fav: bool) -> StoreModel {
        if fav {
            if self.is_favorite(user, manga_id) {
                self
            } else {
                StoreModel {
                    favorites: self.favorites.push(FavoriteRowModel { user, manga_id }),
                    ..self
                }
            }
        } else {
            if self.is_favorite(user, manga_id) {
                StoreModel {
                    favorites: self.favorites.remove(self.favorite_index(user, manga_id)),
                    ..self
                }
            } else {
                self
            }
        }
    }

    /// The index of the read row for this (user, chapter) pair.
    pub open spec fn read_index(self, user: Seq<char>, chapter_id: u64) -> int {
        choose|i: int|
            0 <= i < self.reads.len() && self.reads[i].user == user && self.reads[i].chapter_id
                == chapter_id
    }

    /// The cache after recording this user's read progress for one
    /// chapter: an existing row is overwritten, otherwise one is
    /// appended.
    pub open spec fn spec_set_read(self, user: Seq<char>, chapter_id: u64, pages_read: u64) -> StoreModel {
        if self.read_progress(user, chapter_id) is Some {
            StoreModel {
                reads: self.reads.update(
                    self.read_index(user, chapter_id),
                    ReadRowModel { user, chapter_id, pages_read },
                ),
                ..self
            }
        } else {
            StoreModel {
                reads: self.reads.push(ReadRowModel { user, chapter_id, pages_read }),
                ..self
            }
        }
    }
}

/// The page rows that belong to one chapter, in cache order.
pub open spec fn page_rows_of(pages: Seq<PageRowModel>, chapter_id: u64) -> Seq<PageRowModel>
    decreases pages.len(),
{
    if pages.len() == 0 {
        Seq::empty()
    } else {
        let rest = page_rows_of(pages.drop_first(), chapter_id);
        if pages[0].chapter_id == chapter_id {
            seq![pages[0]] + rest
        } else {
            rest
        }
    }
}

/// The page rows that do not belong to one chapter, in cache order:
/// what a forced refresh keeps.
pub open spec fn remove_pages(pages: Seq<PageRowModel>, chapter_id: u64) -> Seq<PageRowModel>
    decreases pages.len(),
{
    if pages.len() == 0 {
        Seq::empty()
    } else {
        let rest = remove_pages(pages.drop_first(), chapter_id);
        if pages[0].chapter_id == chapter_id {
            rest
        } else {
            seq![pages[0]] + rest
        }
    }
}

impl StoreModel {
    /// The cached pages of one chapter, in cache order.
    pub open spec fn spec_pages_of(self, chapter_id: u64) -> Seq<PageRowModel> {
        page_rows_of(self.pages, chapter_id)
    }

    /// The cache after one idempotent page upsert against the
    /// (chapter, rank) key.
    pub open spec fn spec_upsert_page(self, chapter_id: u64, rank: u64, url: Seq<char>) -> StoreModel {
        if self.has_page_key(chapter_id, rank) {
            self
        } else {
            StoreModel {
                next_id: self.next_id + 1,
                pages: self.pages.push(
                    PageRowModel { id: self.next_id as u64, chapter_id, rank, url },
                ),
                ..self
            }
        }
    }

    /// The cache after upserting the fetched page references from
    /// index `k` on, each under its position as rank.
    pub open spec fn spec_insert_pages_from(self, chapter_id: u64, urls: Seq<Seq<char>>, k: int) -> StoreModel
        decreases urls.len() - k,
    {
        if k < 0 || k >= urls.len() {
            self
        } else {
            self.spec_upsert_page(chapter_id, k as u64, urls[k]).spec_insert_pages_from(
                chapter_id,
                urls,
                k + 1,
            )
        }
    }

    /// The cache after deleting every page row of one chapter.
    pub open spec fn spec_delete_pages(self, chapter_id: u64) -> StoreModel {
        StoreModel { pages: remove_pages(self.pages, chapter_id), ..self }
    }

    /// The provider source and image reference behind a page id: the
    /// page's chapter's manga names the source, the page row names the
    /// image.
    pub open spec fn spec_image_source(self, page_id: u64) -> Option<(Seq<char>, Seq<char>)> {
        if self.has_page_id(page_id) {
            let page = self.page_by_id(page_id);
            if self.has_chapter_id(page.chapter_id) {
                let chapter = self.chapter_by_id(page.chapter_id);
                if self.has_manga_id(chapter.manga_id) {
                    Some((self.manga_by_id(chapter.manga_id).source, page.url))
                } else {
                    None
                }
            } else {
                None
            }
        } else {
            None
        }
    }
}

/// The content cache. Every operation keeps the natural keys unique.
pub struct Store {
    next_id: u64,
    mangas: Vec<MangaRow>,
    chapters: Vec<ChapterRow>,
    pages: Vec<PageRow>,
    favorites: Vec<FavoriteRow>,
    reads: Vec<ReadRow>,
}

impl View for Store {
    type V = StoreModel;

    closed spec fn view(&self) -> StoreModel {
        StoreModel {
            next_id: self.next_id as nat,
            mangas: self.mangas.deep_view(),
            chapters: self.chapters.deep_view(),
            pages: self.pages.deep_view(),
            favorites: self.favorites.deep_view(),
            reads: self.reads.deep_view(),
        }
    }
}

impl Store {
    /// An empty cache.
    pub fn new() -> (r: Store)
        ensures
            r@.wf(),
            r@.next_id == 0,
            r@.mangas.len() == 0,
            r@.chapters.len() == 0,
            r@.pages.len() == 0,
            r@.favorites.len() == 0,
            r@.reads.len() == 0,
    {
        Store {
            next_id: 0,
            mangas: Vec::new(),
            chapters: Vec::new(),
            pages: Vec::new(),
            favorites: Vec::new(),
            reads: Vec::new(),
        }
    }

    /// The next surrogate id the cache would assign; callers bound
    /// batch sizes against the id space with it.
    pub fn next_free_id(&self) -> (r: u64)
        ensures
            r as nat == self@.next_id,
    {
        self.next_id
    }

    /// The index of the manga row with this (source, path) key, if
    /// one is cached.
    fn find_manga_key(&self, source: &String, path: &String) -> (r: Option<usize>)
        requires
            self@.wf(),
        ensures
            match r {
                Some(i) => i < self@.mangas.len() && self@.has_manga_key(source@, path@)
                    && self@.manga_key_index(source@, path@) == i as int,
                None => !self@.has_manga_key(source@, path@),
            },
    {
        let n = self.mangas.len();
        let mut i: usize = 0;
        while i < n
            invariant
                n == self.mangas.len(),
                i <= n,
                self@.wf(),
                forall|j: int|
                    0 <= j < i ==> !((#[trigger] self@.mangas[j]).source == source@
                        && self@.mangas[j].path == path@),
            decreases n - i,
        {
            if self.mangas[i].source == *source && self.mangas[i].path == *path {
                proof {
                    let k = self@.manga_key_index(source@, path@);
                    assert(self@.mangas[i as int].source == source@);
                    assert(0 <= k < self@.mangas.len());
                    assert(k == i as int);
                }
                return Some(i);
            }
            i += 1;
        }
        None
    }

    /// The index of the manga row with this surrogate id, if one is
    /// cached.
    fn find_manga_id(&self, id: u64) -> (r: Option<usize>)
        requires
            self@.wf(),
        ensures
            match r {
                Some(i) => i < self@.mangas.len() && self@.has_manga_id(id) && self@.manga_index(id)
                    == i as int,
                None => !self@.has_manga_id(id),
            },
    {
        let n = self.mangas.len();
        let mut i: usize = 0;
        while i < n
            invariant
                n == self.mangas.len(),
                i <= n,
                self@.wf(),
                forall|j: int| 0 <= j < i ==> (#[trigger] self@.mangas[j]).id != id,
            decreases n - i,
        {
            if self.mangas[i].id == id {
                proof {
                    let k = self@.manga_index(id);
                    assert(self@.mangas[i as int].id == id);
                    assert(0 <= k < self@.mangas.len());
                    assert(k == i as int);
                }
                return Some(i);
            }
            i += 1;
        }
        None
    }

    /// One idempotent manga upsert; returns the id under which the
    /// (source, path) key is cached afterwards.
    fn upsert_manga(&mut self, source: &String, it: &MangaInput) -> (id: u64)
        requires
            old(self)@.wf(),
            old(self)@.next_id < u64::MAX,
        ensures
            final(self)@.wf(),
            final(self)@ == old(self)@.spec_upsert_manga(source@, it@).0,
            id == old(self)@.spec_upsert_manga(source@, it@).1,
            final(self)@.next_id <= old(self)@.next_id + 1,
    {
        match self.find_manga_key(source, &it.path) {
            Some(i) => {
                let id = self.mangas[i].id;
                proof {
                    assert(old(self)@.spec_upsert_manga(source@, it@).0 =~= self@);
                }
                id
            },
            None => {
                let id = self.next_id;
                let row = MangaRow {
                    id,
                    source: source.clone(),
                    path: it.path.clone(),
                    title: it.title.clone(),
                    thumbnail_url: it.thumbnail_url.clone(),
                    author: Vec::new(),
                    status: None,
                    description: None,
                };
                let ghost pre = self@;
                self.mangas.push(row);
                self.next_id = self.next_id + 1;
                proof {
                    let rowm = self.mangas@[pre.mangas.len() as int]@;
                    assert(self@.mangas =~= pre.mangas.push(rowm));
                    assert(rowm.author =~= Seq::<Seq<char>>::empty());
                    assert(self@ =~= pre.spec_upsert_manga(source@, it@).0);
                    let n = pre.mangas.len() as int;
                    assert forall|p: int, q: int| 0 <= p < q < self@.mangas.len()
                        implies self@.mangas[p].id != self@.mangas[q].id && !(self@.mangas[p].source
                        == self@.mangas[q].source && self@.mangas[p].path
                        == self@.mangas[q].path) by {
                        if q < n {
                            assert(self@.mangas[p] == pre.mangas[p]);
                            assert(self@.mangas[q] == pre.mangas[q]);
                        } else {
                            assert(self@.mangas[p] == pre.mangas[p]);
                            assert(self@.mangas[q] == rowm);
                            assert(pre.mangas[p].id < pre.next_id);
                        }
                    }
                }
                id
            },
        }
    }

    /// Caches a provider listing idempotently: for each listed manga,
    /// an existing (source, path) row is kept, a new one is appended
    /// under a fresh id. Returns the cached id of every listed manga,
    /// in listing order.
    pub fn insert_mangas(&mut self, source: &String, items: &Vec<MangaInput>) -> (r: Vec<u64>)
        requires
            old(self)@.wf(),
            old(self)@.next_id + items@.len() <= u64::MAX,
        ensures
            final(self)@.wf(),
            final(self)@ == old(self)@.spec_insert_mangas_from(source@, items.deep_view(), 0).0,
            r@ == old(self)@.spec_insert_mangas_from(source@, items.deep_view(), 0).1,
    {
        let ghost itemsm = items.deep_view();
        let mut ids: Vec<u64> = Vec::new();
        let n = items.len();
        let mut i: usize = 0;
        proof {
            assert(itemsm.len() == items@.len());
        }
        while i < n
            invariant
                n == items.len(),
                itemsm == items.deep_view(),
                itemsm.len() == n,
                i <= n,
                self@.wf(),
                self@.next_id + (n - i) <= u64::MAX,
                old(self)@.spec_insert_mangas_from(source@, itemsm, 0).0
                    == self@.spec_insert_mangas_from(source@, itemsm, i as int).0,
                old(self)@.spec_insert_mangas_from(source@, itemsm, 0).1 == ids@
                    + self@.spec_insert_mangas_from(source@, itemsm, i as int).1,
            decreases n - i,
        {
            let ghost pre = self@;
            let ghost pre_ids = ids@;
            let id = self.upsert_manga(source, &items[i]);
            ids.push(id);
            proof {
                assert(items[i as int].deep_view() == itemsm[i as int]);
                let (s1, id1) = pre.spec_upsert_manga(source@, itemsm[i as int]);
                assert(s1 == self@ && id1 == id);
                let (s2, ids2) = self@.spec_insert_mangas_from(source@, itemsm, i + 1);
                assert(pre.spec_insert_mangas_from(source@, itemsm, i as int).0 == s2);
                assert(pre.spec_insert_mangas_from(source@, itemsm, i as int).1 == seq![id] + ids2);
                assert(pre_ids + (seq![id] + ids2) =~= ids@ + ids2);
            }
            i += 1;
        }
        proof {
            assert(self@.spec_insert_mangas_from(source@, itemsm, n as int).1
                =~= Seq::<u64>::empty());
            assert(ids@ + Seq::<u64>::empty() =~= ids@);
        }
        ids
    }

    /// Refines the manga row with this id from a detail fetch, never
    /// overwriting a populated shared field with an empty value; a
    /// miss leaves the cache unchanged. Returns whether the id was
    /// found.
    pub fn update_manga_info(&mut self, id: u64, f: &MangaFetch) -> (r: bool)
        requires
            old(self)@.wf(),
        ensures
            final(self)@.wf(),
            final(self)@ == old(self)@.spec_refine_manga(id, f@),
            r == old(self)@.has_manga_id(id),
    {
        match self.find_manga_id(id) {
            Some(i) => {
                let ghost pre = self@;
                let mut row = self.mangas.remove(i);
                if f.author.len() > 0 {
                    row.author = clone_string_vec(&f.author);
                }
                if f.status.is_some() {
                    row.status = clone_opt_string(&f.status);
                }
                if f.description.is_some() {
                    row.description = clone_opt_string(&f.description);
                }
                self.mangas.insert(i, row);
                proof {
                    let newrow = self.mangas@[i as int]@;
                    assert(newrow =~= StoreModel::spec_refined_row(pre.mangas[i as int], f@));
                    assert(self@.mangas =~= pre.mangas.update(
                        i as int,
                        StoreModel::spec_refined_row(pre.mangas[i as int], f@),
                    ));
                    assert(self@ =~= pre.spec_refine_manga(id, f@));
                    assert forall|p: int, q: int| 0 <= p < q < self@.mangas.len()
                        implies self@.mangas[p].id != self@.mangas[q].id && !(self@.mangas[p].source
                        == self@.mangas[q].source && self@.mangas[p].path
                        == self@.mangas[q].path) by {
                        assert(pre.mangas[p].id == self@.mangas[p].id);
                        assert(pre.mangas[q].id == self@.mangas[q].id);
                        assert(pre.mangas[p].source == self@.mangas[p].source);
                        assert(pre.mangas[q].source == self@.mangas[q].source);
                        assert(pre.mangas[p].path == self@.mangas[p].path);
                        assert(pre.mangas[q].path == self@.mangas[q].path);
                    }
                    assert(forall|p: int|
                        0 <= p < self@.mangas.len() ==> (#[trigger] self@.mangas[p]).id
                            == pre.mangas[p].id);
                }
                true
            },
            None => false,
        }
    }

    /// Whether this user has marked the manga a favorite.
    pub fn is_favorite(&self, user: &String, manga_id: u64) -> (r: bool)
        requires
            self@.wf(),
        ensures
            r == self@.is_favorite(user@, manga_id),
    {
        match self.find_favorite(user, manga_id) {
            Some(_) => true,
            None => false,
        }
    }

    /// The index of the favorite row for this (user, manga) pair, if
    /// one exists.
    fn find_favorite(&self, user: &String, manga_id: u64) -> (r: Option<usize>)
        requires
            self@.wf(),
        ensures
            match r {
                Some(i) => i < self@.favorites.len() && self@.is_favorite(user@, manga_id)
                    && self@.favorite_index(user@, manga_id) == i as int,
                None => !self@.is_favorite(user@, manga_id),
            },
    {
        let n = self.favorites.len();
        let mut i: usize = 0;
        while i < n
            invariant
                n == self.favorites.len(),
                i <= n,
                self@.wf(),
                forall|j: int|
                    0 <= j < i ==> !((#[trigger] self@.favorites[j]).user == user@
                        && self@.favorites[j].manga_id == manga_id),
            decreases n - i,
        {
            if self.favorites[i].user == *user && self.favorites[i].manga_id == manga_id {
                proof {
                    let k = self@.favorite_index(user@, manga_id);
                    assert(self@.favorites[i as int].user == user@);
                    assert(0 <= k < self@.favorites.len());
                    assert(k == i as int);
                }
                return Some(i);
            }
            i += 1;
        }
        None
    }

    /// Sets or clears this user's favorite flag for one manga;
    /// idempotent in both directions.
    pub fn set_favorite(&mut self, user: &String, manga_id: u64, fav: bool)
        requires
            old(self)@.wf(),
        ensures
            final(self)@.wf(),
            final(self)@ == old(self)@.spec_set_favorite(user@, manga_id, fav),
    {
        let found = self.find_favorite(user, manga_id);
        if fav {
            if found.is_none() {
                let ghost pre = self@;
                self.favorites.push(FavoriteRow { user: user.clone(), manga_id });
                proof {
                    let rowm = self.favorites@[pre.favorites.len() as int]@;
                    assert(self@.favorites =~= pre.favorites.push(rowm));
                    assert(self@ =~= pre.spec_set_favorite(user@, manga_id, true));
                    let n = pre.favorites.len() as int;
                    assert forall|p: int, q: int| 0 <= p < q < self@.favorites.len()
                        implies !(self@.favorites[p].user == self@.favorites[q].user
                        && self@.favorites[p].manga_id == self@.favorites[q].manga_id) by {
                        if q < n {
                            assert(self@.favorites[p] == pre.favorites[p]);
                            assert(self@.favorites[q] == pre.favorites[q]);
                        } else {
                            assert(self@.favorites[p] == pre.favorites[p]);
                            assert(self@.favorites[q] == rowm);
                        }
                    }
                }
            } else {
                proof {
                    assert(self@ =~= old(self)@.spec_set_favorite(user@, manga_id, true));
                }
            }
        } else {
            match found {
                Some(i) => {
                    let ghost pre = self@;
                    self.favorites.remove(i);
                    proof {
                        assert(self@.favorites =~= pre.favorites.remove(i as int));
                        assert(self@ =~= pre.spec_set_favorite(user@, manga_id, false));
                        assert forall|p: int, q: int| 0 <= p < q < self@.favorites.len()
                            implies !(self@.favorites[p].user == self@.favorites[q].user
                            && self@.favorites[p].manga_id == self@.favorites[q].manga_id) by {
                            let p0 = if p < i { p } else { p + 1 };
                            let q0 = if q < i { q } else { q + 1 };
                            assert(self@.favorites[p] == pre.favorites[p0]);
                            assert(self@.favorites[q] == pre.favorites[q0]);
                        }
                    }
                },
                None => {
                    proof {
                        assert(self@ =~= old(self)@.spec_set_favorite(user@, manga_id, false));
                    }
                },
            }
        }
    }

    /// The index of the read row for this (user, chapter) pair, if
    /// one exists.
    fn find_read(&self, user: &String, chapter_id: u64) -> (r: Option<usize>)
        requires
            self@.wf(),
        ensures
            match r {
                Some(i) => i < self@.reads.len() && self@.read_progress(user@, chapter_id)
                    == Some(self@.reads[i as int].pages_read) && self@.read_index(user@, chapter_id)
                    == i as int && self@.reads[i as int].user == user@
                    && self@.reads[i as int].chapter_id == chapter_id,
                None => self@.read_progress(user@, chapter_id) is None,
            },
    {
        let n = self.reads.len();
        let mut i: usize = 0;
        while i < n
            invariant
                n == self.reads.len(),
                i <= n,
                self@.wf(),
                forall|j: int|
                    0 <= j < i ==> !((#[trigger] self@.reads[j]).user == user@
                        && self@.reads[j].chapter_id == chapter_id),
            decreases n - i,
        {
            if self.reads[i].user == *user && self.reads[i].chapter_id == chapter_id {
                proof {
                    let k = self@.read_index(user@, chapter_id);
                    assert(self@.reads[i as int].user == user@);
                    assert(0 <= k < self@.reads.len());
                    assert(k == i as int);
                }
                return Some(i);
            }
            i += 1;
        }
        None
    }

    /// This user's read progress for one chapter, if recorded.
    pub fn read_progress(&self, user: &String, chapter_id: u64) -> (r: Option<u64>)
        requires
            self@.wf(),
        ensures
            r == self@.read_progress(user@, chapter_id),
    {
        match self.find_read(user, chapter_id) {
            Some(i) => Some(self.reads[i].pages_read),
            None => None,
        }
    }

    /// Records this user's read progress for one chapter, overwriting
    /// an earlier value.
    pub fn set_chapter_read(&mut self, user: &String, chapter_id: u64, pages_read: u64)
        requires
            old(self)@.wf(),
        ensures
            final(self)@.wf(),
            final(self)@ == old(self)@.spec_set_read(user@, chapter_id, pages_read),
    {
        match self.find_read(user, chapter_id) {
            Some(i) => {
                let ghost pre = self@;
                self.reads.remove(i);
                self.reads.insert(i, ReadRow { user: user.clone(), chapter_id, pages_read });
                proof {
                    let rowm = self.reads@[i as int]@;
                    assert(self@.reads =~= pre.reads.update(i as int, rowm));
                    assert(self@ =~= pre.spec_set_read(user@, chapter_id, pages_read));
                    assert forall|p: int, q: int| 0 <= p < q < self@.reads.len()
                        implies !(self@.reads[p].user == self@.reads[q].user
                        && self@.reads[p].chapter_id == self@.reads[q].chapter_id) by {
                        assert(pre.reads[p].user == self@.reads[p].user);
                        assert(pre.reads[q].user == self@.reads[q].user);
                        assert(pre.reads[p].chapter_id == self@.reads[p].chapter_id);
                        assert(pre.reads[q].chapter_id == self@.reads[q].chapter_id);
                    }
                }
            },
            None => {
                let ghost pre = self@;
                self.reads.push(ReadRow { user: user.clone(), chapter_id, pages_read });
                proof {
                    let rowm = self.reads@[pre.reads.len() as int]@;
                    assert(self@.reads =~= pre.reads.push(rowm));
                    assert(self@ =~= pre.spec_set_read(user@, chapter_id, pages_read));
                    let n = pre.reads.len() as int;
                    assert forall|p: int, q: int| 0 <= p < q < self@.reads.len()
                        implies !(self@.reads[p].user == self@.reads[q].user
                        && self@.reads[p].chapter_id == self@.reads[q].chapter_id) by {
                        if q < n {
                            assert(self@.reads[p] == pre.reads[p]);
                            assert(self@.reads[q] == pre.reads[q]);
                        } else {
                            assert(self@.reads[p] == pre.reads[p]);
                            assert(self@.reads[q] == rowm);
                        }
                    }
                }
            },
        }
    }

    /// A copy of the manga row with this id, if one is cached.
    pub fn get_manga(&self, id: u64) -> (r: Option<MangaRow>)
        requires
            self@.wf(),
        ensures
            match r {
                Some(m) => self@.has_manga_id(id) && m@ == self@.manga_by_id(id),
                None => !self@.has_manga_id(id),
            },
    {
        match self.find_manga_id(id) {
            Some(i) => {
                let row = &self.mangas[i];
                let copy = MangaRow {
                    id: row.id,
                    source: row.source.clone(),
                    path: row.path.clone(),
                    title: row.title.clone(),
                    thumbnail_url: row.thumbnail_url.clone(),
                    author: clone_string_vec(&row.author),
                    status: clone_opt_string(&row.status),
                    description: clone_opt_string(&row.description),
                };
                proof {
                    assert(copy@ =~= self@.manga_by_id(id));
                }
                Some(copy)
            },
            None => None,
        }
    }

    /// The full cached detail of one manga under this user's overlay,
    /// if the id is cached.
    pub fn get_manga_detail(&self, id: u64, user: &String) -> (r: Option<MangaDetail>)
        requires
            self@.wf(),
        ensures
            match r {
                Some(d) => self@.has_manga_id(id) && d@ == self@.spec_detail(user@, id),
                None => !self@.has_manga_id(id),
            },
    {
        match self.find_manga_id(id) {
            Some(i) => {
                let fav = self.is_favorite(user, self.mangas[i].id);
                let row = &self.mangas[i];
                let d = MangaDetail {
                    id: row.id,
                    source: row.source.clone(),
                    path: row.path.clone(),
                    title: row.title.clone(),
                    thumbnail_url: row.thumbnail_url.clone(),
                    author: clone_string_vec(&row.author),
                    status: clone_opt_string(&row.status),
                    description: clone_opt_string(&row.description),
                    is_favorite: fav,
                };
                proof {
                    assert(d@ =~= self@.spec_detail(user@, id));
                }
                Some(d)
            },
            None => None,
        }
    }

    /// The listing entries for these ids under this user's overlay:
    /// one entry per cached id, in the order asked for.
    pub fn get_mangas(&self, user: &String, ids: &Vec<u64>) -> (r: Vec<MangaSummary>)
        requires
            self@.wf(),
        ensures
            r.deep_view() == self@.spec_summaries_from(user@, ids@, 0),
    {
        let mut out: Vec<MangaSummary> = Vec::new();
        let n = ids.len();
        let mut i: usize = 0;
        while i < n
            invariant
                n == ids.len(),
                i <= n,
                self@.wf(),
                self@.spec_summaries_from(user@, ids@, 0) == out.deep_view()
                    + self@.spec_summaries_from(user@, ids@, i as int),
            decreases n - i,
        {
            let ghost prev = out.deep_view();
            match self.find_manga_id(ids[i]) {
                Some(j) => {
                    let fav = self.is_favorite(user, self.mangas[j].id);
                    let row = &self.mangas[j];
                    let s = MangaSummary {
                        id: row.id,
                        title: row.title.clone(),
                        thumbnail_url: row.thumbnail_url.clone(),
                        is_favorite: fav,
                    };
                    proof {
                        assert(s@ =~= self@.spec_summary(user@, self@.manga_by_id(ids@[i as int])));
                    }
                    out.push(s);
                    proof {
                        assert(out.deep_view() =~= prev.push(out@[prev.len() as int]@));
                        assert(prev + (seq![out@[prev.len() as int]@]
                            + self@.spec_summaries_from(user@, ids@, i + 1)) =~= out.deep_view()
                            + self@.spec_summaries_from(user@, ids@, i + 1));
                    }
                },
                None => {},
            }
            i += 1;
        }
        proof {
            assert(self@.spec_summaries_from(user@, ids@, n as int) =~= Seq::<
                MangaSummaryModel,
            >::empty());
            assert(out.deep_view() + Seq::<MangaSummaryModel>::empty() =~= out.deep_view());
        }
        out
    }

    /// The index of the chapter row with this (manga, number) key, if
    /// one is cached.
    fn find_chapter_key(&self, manga_id: u64, number: &String) -> (r: Option<usize>)
        requires
            self@.wf(),
        ensures
            match r {
                Some(i) => i < self@.chapters.len() && self@.has_chapter_key(manga_id, number@),
                None => !self@.has_chapter_key(manga_id, number@),
            },
    {
        let n = self.chapters.len();
        let mut i: usize = 0;
        while i < n
            invariant
                n == self.chapters.len(),
                i <= n,
                self@.wf(),
                forall|j: int|
                    0 <= j < i ==> !((#[trigger] self@.chapters[j]).manga_id == manga_id
                        && self@.chapters[j].number == number@),
            decreases n - i,
        {
            if self.chapters[i].manga_id == manga_id && self.chapters[i].number == *number {
                proof {
                    assert(self@.chapters[i as int].manga_id == manga_id);
                }
                return Some(i);
            }
            i += 1;
        }
        None
    }

    /// The index of the chapter row with this surrogate id, if one is
    /// cached.
    fn find_chapter_id(&self, id: u64) -> (r: Option<usize>)
        requires
            self@.wf(),
        ensures
            match r {
                Some(i) => i < self@.chapters.len() && self@.has_chapter_id(id)
                    && self@.chapter_index(id) == i as int,
                None => !self@.has_chapter_id(id),
            },
    {
        let n = self.chapters.len();
        let mut i: usize = 0;
        while i < n
            invariant
                n == self.chapters.len(),
                i <= n,
                self@.wf(),
                forall|j: int| 0 <= j < i ==> (#[trigger] self@.chapters[j]).id != id,
            decreases n - i,
        {
            if self.chapters[i].id == id {
                proof {
                    let k = self@.chapter_index(id);
                    assert(self@.chapters[i as int].id == id);
                    assert(0 <= k < self@.chapters.len());
                    assert(k == i as int);
                }
                return Some(i);
            }
            i += 1;
        }
        None
    }

    /// A copy of the chapter row with this id, if one is cached.
    pub fn get_chapter(&self, id: u64) -> (r: Option<ChapterRow>)
        requires
            self@.wf(),
        ensures
            match r {
                Some(c) => self@.has_chapter_id(id) && c@ == self@.chapter_by_id(id),
                None => !self@.has_chapter_id(id),
            },
    {
        match self.find_chapter_id(id) {
            Some(i) => {
                let row = &self.chapters[i];
                Some(
                    ChapterRow {
                        id: row.id,
                        manga_id: row.manga_id,
                        number: row.number.clone(),
                        path: row.path.clone(),
                        uploaded: row.uploaded,
                    },
                )
            },
            None => None,
        }
    }

    /// One idempotent chapter upsert against the (manga, number) key.
    fn upsert_chapter(&mut self, manga_id: u64, it: &ChapterInput)
        requires
            old(self)@.wf(),
            old(self)@.next_id < u64::MAX,
        ensures
            final(self)@.wf(),
            final(self)@ == old(self)@.spec_upsert_chapter(manga_id, it@),
            final(self)@.next_id <= old(self)@.next_id + 1,
    {
        match self.find_chapter_key(manga_id, &it.number) {
            Some(_) => {
                proof {
                    assert(old(self)@.spec_upsert_chapter(manga_id, it@) =~= self@);
                }
            },
            None => {
                let row = ChapterRow {
                    id: self.next_id,
                    manga_id,
                    number: it.number.clone(),
                    path: it.path.clone(),
                    uploaded: it.uploaded,
                };
                let ghost pre = self@;
                self.chapters.push(row);
                self.next_id = self.next_id + 1;
                proof {
                    let rowm = self.chapters@[pre.chapters.len() as int]@;
                    assert(self@.chapters =~= pre.chapters.push(rowm));
                    assert(self@ =~= pre.spec_upsert_chapter(manga_id, it@));
                    let n = pre.chapters.len() as int;
                    assert forall|p: int, q: int| 0 <= p < q < self@.chapters.len()
                        implies self@.chapters[p].id != self@.chapters[q].id
                        && !(self@.chapters[p].manga_id == self@.chapters[q].manga_id
                        && self@.chapters[p].number == self@.chapters[q].number) by {
                        if q < n {
                            assert(self@.chapters[p] == pre.chapters[p]);
                            assert(self@.chapters[q] == pre.chapters[q]);
                        } else {
                            assert(self@.chapters[p] == pre.chapters[p]);
                            assert(self@.chapters[q] == rowm);
                            assert(pre.chapters[p].id < pre.next_id);
                        }
                    }
                }
            },
        }
    }

    /// Caches a fetched chapter list idempotently against the
    /// (manga, number) natural key: repeated refreshes never duplicate
    /// rows.
    pub fn insert_chapters(&mut self, manga_id: u64, items: &Vec<ChapterInput>)
        requires
            old(self)@.wf(),
            old(self)@.next_id + items@.len() <= u64::MAX,
        ensures
            final(self)@.wf(),
            final(self)@ == old(self)@.spec_insert_chapters_from(manga_id, items.deep_view(), 0),
    {
        let ghost itemsm = items.deep_view();
        let n = items.len();
        let mut i: usize = 0;
        proof {
            assert(itemsm.len() == items@.len());
        }
        while i < n
            invariant
                n == items.len(),
                itemsm == items.deep_view(),
                itemsm.len() == n,
                i <= n,
                self@.wf(),
                self@.next_id + (n - i) <= u64::MAX,
                old(self)@.spec_insert_chapters_from(manga_id, itemsm, 0)
                    == self@.spec_insert_chapters_from(manga_id, itemsm, i as int),
            decreases n - i,
        {
            let ghost pre = self@;
            self.upsert_chapter(manga_id, &items[i]);
            proof {
                assert(items[i as int].deep_view() == itemsm[i as int]);
                assert(pre.spec_insert_chapters_from(manga_id, itemsm, i as int)
                    == pre.spec_upsert_chapter(manga_id, itemsm[i as int]).spec_insert_chapters_from(
                    manga_id,
                    itemsm,
                    i + 1,
                ));
            }
            i += 1;
        }
    }

    /// The cached chapters of one manga, in cache order, each under
    /// this user's overlay. An empty result is a cache miss.
    pub fn get_chapters(&self, manga_id: u64, user: &String) -> (r: Vec<ChapterView>)
        requires
            self@.wf(),
        ensures
            r.deep_view() == self@.spec_chapters_of_from(user@, manga_id, 0),
    {
        let mut out: Vec<ChapterView> = Vec::new();
        let n = self.chapters.len();
        let mut i: usize = 0;
        while i < n
            invariant
                n == self.chapters.len(),
                i <= n,
                self@.wf(),
                self@.spec_chapters_of_from(user@, manga_id, 0) == out.deep_view()
                    + self@.spec_chapters_of_from(user@, manga_id, i as int),
            decreases n - i,
        {
            let ghost prev = out.deep_view();
            if self.chapters[i].manga_id == manga_id {
                let read = self.read_progress(user, self.chapters[i].id);
                let row = &self.chapters[i];
                let v = ChapterView {
                    id: row.id,
                    number: row.number.clone(),
                    path: row.path.clone(),
                    uploaded: row.uploaded,
                    read,
                };
                proof {
                    assert(v@ =~= self@.spec_chapter_view(user@, self@.chapters[i as int]));
                }
                out.push(v);
                proof {
                    assert(out.deep_view() =~= prev.push(out@[prev.len() as int]@));
                    assert(prev + (seq![out@[prev.len() as int]@] + self@.spec_chapters_of_from(
                        user@,
                        manga_id,
                        i + 1,
                    )) =~= out.deep_view() + self@.spec_chapters_of_from(user@, manga_id, i + 1));
                }
            }
            i += 1;
        }
        proof {
            assert(self@.spec_chapters_of_from(user@, manga_id, n as int) =~= Seq::<
                ChapterViewModel,
            >::empty());
            assert(out.deep_view() + Seq::<ChapterViewModel>::empty() =~= out.deep_view());
        }
        out
    }

    /// The index of the page row with this (chapter, rank) key, if
    /// one is cached.
    fn find_page_key(&self, chapter_id: u64, rank: u64) -> (r: Option<usize>)
        requires
            self@.wf(),
        ensures
            match r {
                Some(i) => i < self@.pages.len() && self@.has_page_key(chapter_id, rank),
                None => !self@.has_page_key(chapter_id, rank),
            },
    {
        let n = self.pages.len();
        let mut i: usize = 0;
        while i < n
            invariant
                n == self.pages.len(),
                i <= n,
                self@.wf(),
                forall|j: int|
                    0 <= j < i ==> !((#[trigger] self@.pages[j]).chapter_id == chapter_id
                        && self@.pages[j].rank == rank),
            decreases n - i,
        {
            if self.pages[i].chapter_id == chapter_id && self.pages[i].rank == rank {
                proof {
                    assert(self@.pages[i as int].chapter_id == chapter_id);
                }
                return Some(i);
            }
            i += 1;
        }
        None
    }

    /// The index of the page row with this surrogate id, if one is
    /// cached.
    fn find_page_id(&self, id: u64) -> (r: Option<usize>)
        requires
            self@.wf(),
        ensures
            match r {
                Some(i) => i < self@.pages.len() && self@.has_page_id(id) && self@.page_index(id)
                    == i as int,
                None => !self@.has_page_id(id),
            },
    {
        let n = self.pages.len();
        let mut i: usize = 0;
        while i < n
            invariant
                n == self.pages.len(),
                i <= n,
                self@.wf(),
                forall|j: int| 0 <= j < i ==> (#[trigger] self@.pages[j]).id != id,
            decreases n - i,
        {
            if self.pages[i].id == id {
                proof {
                    let k = self@.page_index(id);
                    assert(self@.pages[i as int].id == id);
                    assert(0 <= k < self@.pages.len());
                    assert(k == i as int);
                }
                return Some(i);
            }
            i += 1;
        }
        None
    }

    /// One idempotent page upsert against the (chapter, rank) key.
    fn upsert_page(&mut self, chapter_id: u64, rank: u64, url: &String)
        requires
            old(self)@.wf(),
            old(self)@.next_id < u64::MAX,
        ensures
            final(self)@.wf(),
            final(self)@ == old(self)@.spec_upsert_page(chapter_id, rank, url@),
            final(self)@.next_id <= old(self)@.next_id + 1,
    {
        match self.find_page_key(chapter_id, rank) {
            Some(_) => {
                proof {
                    assert(old(self)@.spec_upsert_page(chapter_id, rank, url@) =~= self@);
                }
            },
            None => {
                let row = PageRow { id: self.next_id, chapter_id, rank, url: url.clone() };
                let ghost pre = self@;
                self.pages.push(row);
                self.next_id = self.next_id + 1;
                proof {
                    let rowm = self.pages@[pre.pages.len() as int]@;
                    assert(self@.pages =~= pre.pages.push(rowm));
                    assert(self@ =~= pre.spec_upsert_page(chapter_id, rank, url@));
                    let n = pre.pages.len() as int;
                    assert forall|p: int, q: int| 0 <= p < q < self@.pages.len()
                        implies self@.pages[p].id != self@.pages[q].id
                        && !(self@.pages[p].chapter_id == self@.pages[q].chapter_id
                        && self@.pages[p].rank == self@.pages[q].rank) by {
                        if q < n {
                            assert(self@.pages[p] == pre.pages[p]);
                            assert(self@.pages[q] == pre.pages[q]);
                        } else {
                            assert(self@.pages[p] == pre.pages[p]);
                            assert(self@.pages[q] == rowm);
                            assert(pre.pages[p].id < pre.next_id);
                        }
                    }
                }
            },
        }
    }

    /// Caches a fetched page list: reference `k` of the provider's
    /// output is cached under rank `k`, idempotently against the
    /// (chapter, rank) key.
    pub fn insert_pages(&mut self, chapter_id: u64, urls: &Vec<String>)
        requires
            old(self)@.wf(),
            old(self)@.next_id + urls@.len() <= u64::MAX,
            urls@.len() <= u64::MAX,
        ensures
            final(self)@.wf(),
            final(self)@ == old(self)@.spec_insert_pages_from(chapter_id, urls.deep_view(), 0),
    {
        let ghost urlsm = urls.deep_view();
        let n = urls.len();
        let mut i: usize = 0;
        proof {
            assert(urlsm.len() == urls@.len());
        }
        while i < n
            invariant
                n == urls.len(),
                urlsm == urls.deep_view(),
                urlsm.len() == n,
                n <= u64::MAX,
                i <= n,
                self@.wf(),
                self@.next_id + (n - i) <= u64::MAX,
                old(self)@.spec_insert_pages_from(chapter_id, urlsm, 0)
                    == self@.spec_insert_pages_from(chapter_id, urlsm, i as int),
            decreases n - i,
        {
            let ghost pre = self@;
            self.upsert_page(chapter_id, i as u64, &urls[i]);
            proof {
                assert(urls[i as int]@ == urlsm[i as int]);
                assert(pre.spec_insert_pages_from(chapter_id, urlsm, i as int)
                    == pre.spec_upsert_page(
                    chapter_id,
                    i as u64,
                    urlsm[i as int],
                ).spec_insert_pages_from(chapter_id, urlsm, i + 1));
            }
            i += 1;
        }
    }

    /// Copies of the cached pages of one chapter, in cache order. An
    /// empty result is a cache miss.
    pub fn get_pages(&self, chapter_id: u64) -> (r: Vec<PageRow>)
        requires
            self@.wf(),
        ensures
            r.deep_view() == self@.spec_pages_of(chapter_id),
    {
        let mut out: Vec<PageRow> = Vec::new();
        let n = self.pages.len();
        let mut i: usize = 0;
        proof {
            assert(self@.spec_pages_of(chapter_id) == page_rows_of(self@.pages.skip(0), chapter_id))
                by {
                assert(self@.pages.skip(0) =~= self@.pages);
            }
        }
        while i < n
            invariant
                n == self.pages.len(),
                i <= n,
                self@.wf(),
                self@.spec_pages_of(chapter_id) == out.deep_view() + page_rows_of(
                    self@.pages.skip(i as int),
                    chapter_id,
                ),
            decreases n - i,
        {
            let ghost prev = out.deep_view();
            let ghost suffix = self@.pages.skip(i as int);
            proof {
                assert(suffix.len() > 0);
                assert(suffix[0] == self@.pages[i as int]);
                assert(suffix.drop_first() =~= self@.pages.skip(i + 1));
            }
            if self.pages[i].chapter_id == chapter_id {
                let row = &self.pages[i];
                let copy = PageRow {
                    id: row.id,
                    chapter_id: row.chapter_id,
                    rank: row.rank,
                    url: row.url.clone(),
                };
                proof {
                    assert(copy@ =~= self@.pages[i as int]);
                }
                out.push(copy);
                proof {
                    assert(out.deep_view() =~= prev.push(out@[prev.len() as int]@));
                    assert(prev + (seq![self@.pages[i as int]] + page_rows_of(
                        self@.pages.skip(i + 1),
                        chapter_id,
                    )) =~= out.deep_view() + page_rows_of(self@.pages.skip(i + 1), chapter_id));
                }
            }
            i += 1;
        }
        proof {
            assert(self@.pages.skip(n as int) =~= Seq::<PageRowModel>::empty());
            assert(out.deep_view() + Seq::<PageRowModel>::empty() =~= out.deep_view());
        }
        out
    }

    /// Deletes every cached page of one chapter: the forced-refresh
    /// path replaces them wholesale, since ranks and references may
    /// shift upstream.
    pub fn delete_pages(&mut self, chapter_id: u64)
        requires
            old(self)@.wf(),
        ensures
            final(self)@.wf(),
            final(self)@ == old(self)@.spec_delete_pages(chapter_id),
    {
        let mut kept: Vec<PageRow> = Vec::new();
        let n = self.pages.len();
        let mut i: usize = 0;
        proof {
            assert(self@.pages.take(0) =~= Seq::<PageRowModel>::empty());
        }
        while i < n
            invariant
                n == self.pages.len(),
                i <= n,
                self@.wf(),
                self@ == old(self)@,
                kept.deep_view() == remove_pages(self@.pages.take(i as int), chapter_id),
            decreases n - i,
        {
            let ghost prev = kept.deep_view();
            proof {
                assert(self@.pages.take(i + 1) =~= self@.pages.take(i as int).push(
                    self@.pages[i as int],
                ));
                lemma_remove_pages_push(
                    self@.pages.take(i as int),
                    self@.pages[i as int],
                    chapter_id,
                );
            }
            if self.pages[i].chapter_id != chapter_id {
                let row = &self.pages[i];
                let copy = PageRow {
                    id: row.id,
                    chapter_id: row.chapter_id,
                    rank: row.rank,
                    url: row.url.clone(),
                };
                proof {
                    assert(copy@ =~= self@.pages[i as int]);
                }
                kept.push(copy);
                proof {
                    assert(kept.deep_view() =~= prev.push(kept@[prev.len() as int]@));
                }
            }
            i += 1;
        }
        proof {
            assert(self@.pages.take(n as int) =~= self@.pages);
        }
        let ghost pre = self@;
        self.pages = kept;
        proof {
            assert(self@ =~= pre.spec_delete_pages(chapter_id));
            lemma_remove_pages_wf(pre.pages, chapter_id, pre.next_id);
        }
    }

    /// Resolves a page id to the provider source that owns it and the
    /// image reference it carries.
    pub fn get_image_from_page_id(&self, page_id: u64) -> (r: Option<(String, String)>)
        requires
            self@.wf(),
        ensures
            match r {
                Some(p) => self@.spec_image_source(page_id) == Some((p.0@, p.1@)),
                None => self@.spec_image_source(page_id) is None,
            },
    {
        match self.find_page_id(page_id) {
            Some(i) => {
                let chapter_id = self.pages[i].chapter_id;
                match self.find_chapter_id(chapter_id) {
                    Some(j) => {
                        let manga_id = self.chapters[j].manga_id;
                        match self.find_manga_id(manga_id) {
                            Some(k) => Some(
                                (self.mangas[k].source.clone(), self.pages[i].url.clone()),
                            ),
                            None => None,
                        }
                    },
                    None => None,
                }
            },
            None => None,
        }
    }
}

/// Refining a manga's detail from the same fetch twice leaves exactly
/// the rows the first refinement left: the detail fetch-and-cache
/// path is idempotent, and no natural key is ever duplicated by it.
pub proof fn lemma_detail_refresh_idempotent(m: StoreModel, id: u64, f: MangaFetchModel)
    requires
        m.wf(),
    ensures
        m.spec_refine_manga(id, f).spec_refine_manga(id, f) == m.spec_refine_manga(id, f),
{
    if m.has_manga_id(id) {
        let i = m.manga_index(id);
        let row = m.mangas[i];
        let r1 = StoreModel::spec_refined_row(row, f);
        let m1 = m.spec_refine_manga(id, f);
        assert(m1.mangas == m.mangas.update(i, r1));
        assert(r1.id == id);
        assert(m1.has_manga_id(id)) by {
            assert(m1.mangas[i].id == id);
        }
        assert(forall|j: int|
            0 <= j < m1.mangas.len() ==> (#[trigger] m1.mangas[j]).id == m.mangas[j].id);
        let k = m1.manga_index(id);
        assert(0 <= k < m1.mangas.len() && m1.mangas[k].id == id);
        assert(k == i);
        assert(StoreModel::spec_refined_row(r1, f) =~= r1);
        assert(m1.mangas.update(i, r1) =~= m1.mangas);
        assert(m1.spec_refine_manga(id, f) =~= m1);
    }
}

/// A detail fetch that carries status, authors and description makes
/// the refined cache row complete: the next read of it is a pure
/// cache hit.
pub proof fn lemma_refined_detail_complete(
    m: StoreModel,
    id: u64,
    user: Seq<char>,
    f: MangaFetchModel,
)
    requires
        m.wf(),
        m.has_manga_id(id),
        f.author.len() > 0,
        f.status is Some,
        f.description is Some,
    ensures
        spec_detail_complete(m.spec_refine_manga(id, f).spec_detail(user, id)),
{
    let i = m.manga_index(id);
    let r1 = StoreModel::spec_refined_row(m.mangas[i], f);
    let m1 = m.spec_refine_manga(id, f);
    assert(m1.mangas[i] == r1);
    assert(r1.id == id);
    assert(m1.has_manga_id(id)) by {
        assert(m1.mangas[i].id == id);
    }
    assert(forall|j: int|
        0 <= j < m1.mangas.len() ==> (#[trigger] m1.mangas[j]).id == m.mangas[j].id);
    let k = m1.manga_index(id);
    assert(0 <= k < m1.mangas.len() && m1.mangas[k].id == id);
    assert(k == i);
}

/// Two writers racing to cache the same (source, path) listing entry
/// cannot produce two surrogate ids: whatever the first upsert did,
/// the second is a no-op against the first's row and yields the same
/// id.
pub proof fn lemma_concurrent_upsert_single_row(
    m: StoreModel,
    source: Seq<char>,
    it: MangaInputModel,
)
    ensures
        ({
            let (m1, id) = m.spec_upsert_manga(source, it);
            let (m2, id2) = m1.spec_upsert_manga(source, it);
            m2 == m1 && id2 == id
        }),
{
    let (m1, id) = m.spec_upsert_manga(source, it);
    if m.has_manga_key(source, it.path) {
    } else {
        let n = m.mangas.len() as int;
        assert(m1.mangas[n].source == source && m1.mangas[n].path == it.path);
        assert(m1.has_manga_key(source, it.path));
        let k = m1.manga_key_index(source, it.path);
        assert(0 <= k < m1.mangas.len() && m1.mangas[k].source == source && m1.mangas[k].path
            == it.path);
        assert(k == n) by {
            if k < n {
                assert(m.mangas[k] == m1.mangas[k]);
                assert(m.has_manga_key(source, it.path));
            }
        }
        assert(m1.mangas[k].id == id);
    }
}

/// Upserting fetched chapters never disturbs an existing
/// (manga, number) key: a key present before a refresh is present
/// after it.
proof fn lemma_insert_chapters_keeps_key(
    m: StoreModel,
    manga_id: u64,
    items: Seq<ChapterInputModel>,
    k: int,
    key_manga: u64,
    number: Seq<char>,
)
    requires
        m.has_chapter_key(key_manga, number),
    ensures
        m.spec_insert_chapters_from(manga_id, items, k).has_chapter_key(key_manga, number),
    decreases items.len() - k,
{
    if k < 0 || k >= items.len() {
    } else {
        let m1 = m.spec_upsert_chapter(manga_id, items[k]);
        let i = choose|i: int|
            0 <= i < m.chapters.len() && m.chapters[i].manga_id == key_manga && m.chapters[i].number
                == number;
        assert(m1.has_chapter_key(key_manga, number)) by {
            assert(m1.chapters[i] == m.chapters[i]);
        }
        lemma_insert_chapters_keeps_key(m1, manga_id, items, k + 1, key_manga, number);
    }
}

/// After upserting fetched chapters, every fetched (manga, number)
/// key is cached.
proof fn lemma_insert_chapters_adds_keys(
    m: StoreModel,
    manga_id: u64,
    items: Seq<ChapterInputModel>,
    k: int,
)
    requires
        0 <= k,
    ensures
        forall|j: int|
            k <= j < items.len() ==> m.spec_insert_chapters_from(
                manga_id,
                items,
                k,
            ).has_chapter_key(manga_id, (#[trigger] items[j]).number),
    decreases items.len() - k,
{
    if k < 0 || k >= items.len() {
    } else {
        let m1 = m.spec_upsert_chapter(manga_id, items[k]);
        assert(m1.has_chapter_key(manga_id, items[k].number)) by {
            if !m.has_chapter_key(manga_id, items[k].number) {
                let n = m.chapters.len() as int;
                assert(m1.chapters[n].manga_id == manga_id && m1.chapters[n].number
                    == items[k].number);
            } else {
                let i = choose|i: int|
                    0 <= i < m.chapters.len() && m.chapters[i].manga_id == manga_id
                        && m.chapters[i].number == items[k].number;
                assert(m1.chapters[i] == m.chapters[i]);
            }
        }
        lemma_insert_chapters_adds_keys(m1, manga_id, items, k + 1);
        lemma_insert_chapters_keeps_key(
            m1,
            manga_id,
            items,
            k + 1,
            manga_id,
            items[k].number,
        );
        assert(m.spec_insert_chapters_from(manga_id, items, k) == m1.spec_insert_chapters_from(
            manga_id,
            items,
            k + 1,
        ));
        assert forall|j: int| k <= j < items.len() implies m.spec_insert_chapters_from(
            manga_id,
            items,
            k,
        ).has_chapter_key(manga_id, (#[trigger] items[j]).number) by {
            if j == k {
                assert(m1.spec_insert_chapters_from(manga_id, items, k + 1).has_chapter_key(
                    manga_id,
                    items[k].number,
                ));
            } else {
                assert(m1.spec_insert_chapters_from(manga_id, items, k + 1).has_chapter_key(
                    manga_id,
                    items[j].number,
                ));
            }
        }
    }
}

/// Upserting a chapter list whose keys are all cached already changes
/// nothing.
proof fn lemma_insert_cached_chapters_noop(
    m: StoreModel,
    manga_id: u64,
    items: Seq<ChapterInputModel>,
    k: int,
)
    requires
        forall|j: int|
            k <= j < items.len() ==> m.has_chapter_key(manga_id, (#[trigger] items[j]).number),
    ensures
        m.spec_insert_chapters_from(manga_id, items, k) == m,
    decreases items.len() - k,
{
    if k < 0 || k >= items.len() {
    } else {
        assert(m.spec_upsert_chapter(manga_id, items[k]) == m);
        lemma_insert_cached_chapters_noop(m, manga_id, items, k + 1);
    }
}

/// A repeated chapter refresh with the same provider output is a
/// no-op: the (manga, number) keys land once, and caching them again
/// duplicates no row.
pub proof fn lemma_chapter_refresh_idempotent(
    m: StoreModel,
    manga_id: u64,
    items: Seq<ChapterInputModel>,
)
    ensures
        ({
            let m1 = m.spec_insert_chapters_from(manga_id, items, 0);
            m1.spec_insert_chapters_from(manga_id, items, 0) == m1
        }),
{
    let m1 = m.spec_insert_chapters_from(manga_id, items, 0);
    lemma_insert_chapters_adds_keys(m, manga_id, items, 0);
    lemma_insert_cached_chapters_noop(m1, manga_id, items, 0);
}

/// `remove_pages` over a sequence extended at the end: the new row is
/// kept exactly when it belongs to another chapter.
pub proof fn lemma_remove_pages_push(pages: Seq<PageRowModel>, p: PageRowModel, chapter_id: u64)
    ensures
        remove_pages(pages.push(p), chapter_id) == if p.chapter_id != chapter_id {
            remove_pages(pages, chapter_id).push(p)
        } else {
            remove_pages(pages, chapter_id)
        },
    decreases pages.len(),
{
    if pages.len() == 0 {
        assert(pages.push(p)[0] == p);
        assert(pages.push(p).drop_first() =~= Seq::<PageRowModel>::empty());
        assert(remove_pages(Seq::<PageRowModel>::empty(), chapter_id) =~= Seq::<
            PageRowModel,
        >::empty());
        assert(pages =~= Seq::<PageRowModel>::empty());
        if p.chapter_id != chapter_id {
            assert(remove_pages(pages.push(p), chapter_id) =~= remove_pages(
                pages,
                chapter_id,
            ).push(p));
        } else {
            assert(remove_pages(pages.push(p), chapter_id) =~= remove_pages(pages, chapter_id));
        }
    } else {
        assert(pages.push(p).drop_first() =~= pages.drop_first().push(p));
        assert(pages.push(p)[0] == pages[0]);
        lemma_remove_pages_push(pages.drop_first(), p, chapter_id);
        if p.chapter_id != chapter_id {
            if pages[0].chapter_id != chapter_id {
                assert(seq![pages[0]] + remove_pages(pages.drop_first(), chapter_id).push(p)
                    =~= (seq![pages[0]] + remove_pages(pages.drop_first(), chapter_id)).push(p));
            }
            assert(remove_pages(pages.push(p), chapter_id) =~= remove_pages(
                pages,
                chapter_id,
            ).push(p));
        } else {
            assert(remove_pages(pages.push(p), chapter_id) =~= remove_pages(pages, chapter_id));
        }
    }
}

/// `page_rows_of` over a sequence extended at the end: the new row is
/// appended exactly when it belongs to the chapter.
pub proof fn lemma_page_rows_of_push(pages: Seq<PageRowModel>, p: PageRowModel, chapter_id: u64)
    ensures
        page_rows_of(pages.push(p), chapter_id) == if p.chapter_id == chapter_id {
            page_rows_of(pages, chapter_id).push(p)
        } else {
            page_rows_of(pages, chapter_id)
        },
    decreases pages.len(),
{
    if pages.len() == 0 {
        assert(pages.push(p)[0] == p);
        assert(pages.push(p).drop_first() =~= Seq::<PageRowModel>::empty());
        assert(page_rows_of(Seq::<PageRowModel>::empty(), chapter_id) =~= Seq::<
            PageRowModel,
        >::empty());
        assert(pages =~= Seq::<PageRowModel>::empty());
        if p.chapter_id == chapter_id {
            assert(page_rows_of(pages.push(p), chapter_id) =~= page_rows_of(
                pages,
                chapter_id,
            ).push(p));
        } else {
            assert(page_rows_of(pages.push(p), chapter_id) =~= page_rows_of(pages, chapter_id));
        }
    } else {
        assert(pages.push(p).drop_first() =~= pages.drop_first().push(p));
        assert(pages.push(p)[0] == pages[0]);
        lemma_page_rows_of_push(pages.drop_first(), p, chapter_id);
        if p.chapter_id == chapter_id {
            if pages[0].chapter_id == chapter_id {
                assert(seq![pages[0]] + page_rows_of(pages.drop_first(), chapter_id).push(p)
                    =~= (seq![pages[0]] + page_rows_of(pages.drop_first(), chapter_id)).push(p));
            }
            assert(page_rows_of(pages.push(p), chapter_id) =~= page_rows_of(
                pages,
                chapter_id,
            ).push(p));
        } else {
            assert(page_rows_of(pages.push(p), chapter_id) =~= page_rows_of(pages, chapter_id));
        }
    }
}

/// Every page row of the chapter appears in `page_rows_of`, and
/// everything in `page_rows_of` is a row of the chapter taken from
/// the table.
pub proof fn lemma_page_rows_of_members(pages: Seq<PageRowModel>, chapter_id: u64)
    ensures
        forall|i: int|
            0 <= i < pages.len() && (#[trigger] pages[i]).chapter_id == chapter_id
                ==> page_rows_of(pages, chapter_id).contains(pages[i]),
        forall|x: PageRowModel|
            #[trigger] page_rows_of(pages, chapter_id).contains(x) ==> pages.contains(x)
                && x.chapter_id == chapter_id,
    decreases pages.len(),
{
    if pages.len() == 0 {
    } else {
        let tail = pages.drop_first();
        lemma_page_rows_of_members(tail, chapter_id);
        let rest = page_rows_of(tail, chapter_id);
        let whole = page_rows_of(pages, chapter_id);
        assert forall|i: int| 0 <= i < pages.len() && (#[trigger] pages[i]).chapter_id == chapter_id
            implies whole.contains(pages[i]) by {
            if i == 0 {
                assert(whole[0] == pages[0]);
            } else {
                assert(tail[i - 1] == pages[i]);
                assert(rest.contains(pages[i]));
                let j = choose|j: int| 0 <= j < rest.len() && rest[j] == pages[i];
                if pages[0].chapter_id == chapter_id {
                    assert(whole[j + 1] == rest[j]);
                } else {
                    assert(whole[j] == rest[j]);
                }
            }
        }
        assert forall|x: PageRowModel| #[trigger] whole.contains(x) implies pages.contains(x)
            && x.chapter_id == chapter_id by {
            let j = choose|j: int| 0 <= j < whole.len() && whole[j] == x;
            if pages[0].chapter_id == chapter_id {
                if j == 0 {
                    assert(pages[0] == x);
                    assert(pages.contains(x)) by {
                        assert(pages[0] == x);
                    }
                } else {
                    assert(whole[j] == rest[j - 1]);
                    assert(rest.contains(x));
                    let k = choose|k: int| 0 <= k < tail.len() && tail[k] == x;
                    assert(pages[k + 1] == x);
                    assert(pages.contains(x)) by {
                        assert(pages[k + 1] == x);
                    }
                }
            } else {
                assert(whole[j] == rest[j]);
                assert(rest.contains(x));
                let k = choose|k: int| 0 <= k < tail.len() && tail[k] == x;
                assert(pages[k + 1] == x);
                assert(pages.contains(x)) by {
                    assert(pages[k + 1] == x);
                }
            }
        }
    }
}

/// A forced delete keeps exactly the other chapters' rows, and keeps
/// the table well-formed.
pub proof fn lemma_remove_pages_wf(pages: Seq<PageRowModel>, chapter_id: u64, next_id: nat)
    requires
        pages_wf(pages, next_id),
    ensures
        pages_wf(remove_pages(pages, chapter_id), next_id),
        forall|x: PageRowModel|
            #[trigger] remove_pages(pages, chapter_id).contains(x) ==> pages.contains(x)
                && x.chapter_id != chapter_id,
        forall|x: PageRowModel|
            pages.contains(x) && x.chapter_id != chapter_id ==> remove_pages(
                pages,
                chapter_id,
            ).contains(x),
    decreases pages.len(),
{
    if pages.len() == 0 {
    } else {
        let tail = pages.drop_first();
        assert(pages_wf(tail, next_id)) by {
            assert(forall|i: int| 0 <= i < tail.len() ==> tail[i] == pages[i + 1]);
        }
        lemma_remove_pages_wf(tail, chapter_id, next_id);
        let rest = remove_pages(tail, chapter_id);
        let whole = remove_pages(pages, chapter_id);
        assert forall|x: PageRowModel| #[trigger] whole.contains(x) implies pages.contains(x)
            && x.chapter_id != chapter_id by {
            let j = choose|j: int| 0 <= j < whole.len() && whole[j] == x;
            if pages[0].chapter_id != chapter_id {
                if j == 0 {
                    assert(pages.contains(x)) by {
                        assert(pages[0] == x);
                    }
                } else {
                    assert(whole[j] == rest[j - 1]);
                    assert(rest.contains(x));
                    let k = choose|k: int| 0 <= k < tail.len() && tail[k] == x;
                    assert(pages.contains(x)) by {
                        assert(pages[k + 1] == x);
                    }
                }
            } else {
                assert(whole[j] == rest[j]);
                assert(rest.contains(x));
                let k = choose|k: int| 0 <= k < tail.len() && tail[k] == x;
                assert(pages.contains(x)) by {
                    assert(pages[k + 1] == x);
                }
            }
        }
        assert forall|x: PageRowModel| pages.contains(x) && x.chapter_id != chapter_id
            implies whole.contains(x) by {
            let j = choose|j: int| 0 <= j < pages.len() && pages[j] == x;
            if j == 0 {
                assert(whole.contains(x)) by {
                    assert(whole[0] == x);
                }
            } else {
                assert(tail.contains(x)) by {
                    assert(tail[j - 1] == x);
                }
                assert(rest.contains(x));
                let k = choose|k: int| 0 <= k < rest.len() && rest[k] == x;
                if pages[0].chapter_id != chapter_id {
                    assert(whole.contains(x)) by {
                        assert(whole[k + 1] == x);
                    }
                } else {
                    assert(whole.contains(x)) by {
                        assert(whole[k] == x);
                    }
                }
            }
        }
        if pages[0].chapter_id != chapter_id {
            assert forall|p: int, q: int| 0 <= p < q < whole.len()
                implies whole[p].id != whole[q].id && !(whole[p].chapter_id == whole[q].chapter_id
                && whole[p].rank == whole[q].rank) by {
                if p == 0 {
                    assert(whole[q] == rest[q - 1]);
                    assert(rest.contains(rest[q - 1])) by {
                        assert(rest[q - 1] == rest[q - 1]);
                    }
                    assert(tail.contains(rest[q - 1]));
                    let k = choose|k: int| 0 <= k < tail.len() && tail[k] == rest[q - 1];
                    assert(pages[k + 1] == rest[q - 1]);
                    assert(pages[0].id != pages[k + 1].id);
                } else {
                    assert(whole[p] == rest[p - 1]);
                    assert(whole[q] == rest[q - 1]);
                }
            }
            assert(forall|i: int|
                0 <= i < whole.len() ==> (#[trigger] whole[i]).id < next_id) by {
                assert(whole[0] == pages[0]);
                assert(forall|i: int| 1 <= i < whole.len() ==> whole[i] == rest[i - 1]);
            }
        }
    }
}

/// A forced page refresh replaces a chapter's cached pages with the
/// provider's current output exactly: after deleting the chapter's
/// rows and caching the fetched references, the chapter holds one row
/// per reference, rank `k` carrying reference `k`, in rank order, and
/// no stale rank survives.
pub proof fn lemma_forced_refresh_replaces_pages(
    m: StoreModel,
    chapter_id: u64,
    urls: Seq<Seq<char>>,
)
    requires
        m.wf(),
        urls.len() <= u64::MAX,
    ensures
        ({
            let m2 = m.spec_delete_pages(chapter_id).spec_insert_pages_from(chapter_id, urls, 0);
            &&& m2.spec_pages_of(chapter_id).len() == urls.len()
            &&& forall|k: int|
                0 <= k < urls.len() ==> (#[trigger] m2.spec_pages_of(chapter_id)[k]).rank == k as u64
                    && m2.spec_pages_of(chapter_id)[k].url == urls[k]
        }),
{
    let m1 = m.spec_delete_pages(chapter_id);
    lemma_remove_pages_wf(m.pages, chapter_id, m.next_id);
    assert(m1.spec_pages_of(chapter_id).len() == 0) by {
        lemma_page_rows_of_members(m1.pages, chapter_id);
        if page_rows_of(m1.pages, chapter_id).len() > 0 {
            let x = page_rows_of(m1.pages, chapter_id)[0];
            assert(page_rows_of(m1.pages, chapter_id).contains(x)) by {
                assert(page_rows_of(m1.pages, chapter_id)[0] == x);
            }
            assert(m1.pages.contains(x) && x.chapter_id == chapter_id);
            assert(x.chapter_id != chapter_id);
        }
    }
    assert(m1.spec_pages_of(chapter_id) =~= Seq::<PageRowModel>::empty());
    lemma_insert_pages_prefix(m1, chapter_id, urls, 0);
}

/// Caching the fetched references from index `k` on extends a table
/// whose chapter rows are exactly ranks `0 .. k` in order to one whose
/// chapter rows are exactly ranks `0 .. urls.len()` in order.
proof fn lemma_insert_pages_prefix(m: StoreModel, chapter_id: u64, urls: Seq<Seq<char>>, k: int)
    requires
        urls.len() <= u64::MAX,
        0 <= k <= urls.len(),
        m.spec_pages_of(chapter_id).len() == k,
        forall|j: int|
            0 <= j < k ==> (#[trigger] m.spec_pages_of(chapter_id)[j]).rank == j as u64
                && m.spec_pages_of(chapter_id)[j].url == urls[j],
    ensures
        ({
            let m2 = m.spec_insert_pages_from(chapter_id, urls, k);
            &&& m2.spec_pages_of(chapter_id).len() == urls.len()
            &&& forall|j: int|
                0 <= j < urls.len() ==> (#[trigger] m2.spec_pages_of(chapter_id)[j]).rank == j as u64
                    && m2.spec_pages_of(chapter_id)[j].url == urls[j]
        }),
    decreases urls.len() - k,
{
    if k == urls.len() {
    } else {
        assert(!m.has_page_key(chapter_id, k as u64)) by {
            if m.has_page_key(chapter_id, k as u64) {
                let i = choose|i: int|
                    0 <= i < m.pages.len() && m.pages[i].chapter_id == chapter_id
                        && m.pages[i].rank == k as u64;
                lemma_page_rows_of_members(m.pages, chapter_id);
                assert(m.spec_pages_of(chapter_id).contains(m.pages[i]));
                let j = choose|j: int|
                    0 <= j < m.spec_pages_of(chapter_id).len() && m.spec_pages_of(chapter_id)[j]
                        == m.pages[i];
                assert(m.spec_pages_of(chapter_id)[j].rank == j as u64);
                assert(j < k);
                assert(j as u64 == k as u64);
            }
        }
        let m1 = m.spec_upsert_page(chapter_id, k as u64, urls[k]);
        let row = PageRowModel {
            id: m.next_id as u64,
            chapter_id,
            rank: k as u64,
            url: urls[k],
        };
        assert(m1.pages == m.pages.push(row));
        lemma_page_rows_of_push(m.pages, row, chapter_id);
        assert(m1.spec_pages_of(chapter_id) == m.spec_pages_of(chapter_id).push(row));
        lemma_insert_pages_prefix(m1, chapter_id, urls, k + 1);
    }
}

/// A field-by-field copy of a string list (`Vec` cloning carries no
/// specification, element clones do).
fn clone_string_vec(v: &Vec<String>) -> (r: Vec<String>)
    ensures
        r.deep_view() == v.deep_view(),
{
    let mut out: Vec<String> = Vec::new();
    let n = v.len();
    let mut i: usize = 0;
    while i < n
        invariant
            n == v.len(),
            i <= n,
            out.deep_view().len() == i,
            forall|j: int| 0 <= j < i ==> out.deep_view()[j] == v.deep_view()[j],
        decreases n - i,
    {
        let ghost prev = out.deep_view();
        out.push(v[i].clone());
        proof {
            assert(out.deep_view() =~= prev.push(out@[prev.len() as int]@));
        }
        i += 1;
    }
    proof {
        assert(out.deep_view() =~= v.deep_view());
    }
    out
}

/// A copy of an optional string with a known view.
fn clone_opt_string(v: &Option<String>) -> (r: Option<String>)
    ensures
        r.deep_view() == v.deep_view(),
{
    match v {
        Some(s) => Some(s.clone()),
        None => None,
    }
}

} // verus!
