//! The orchestration core: for every content read path, decide
//! whether cached data is usable or a provider fetch is needed, and
//! reconcile fetched provider output with the cache idempotently.
//!
//! Provider calls block on the network and are the caller's to make:
//! a read path either answers from the cache or names the provider
//! source and path to fetch, and a matching apply operation caches
//! what the provider returned and re-reads the canonical record.

use vstd::prelude::*;

use crate::catalog::{spec_annotated, SourceIndexEntry, SourceIndexEntryModel};
use crate::errors::{CacheError, InstallError, LoadError};
use crate::registry::{ProviderInfo, Registry, RegistryModel};
use crate::store::{
    spec_detail_complete, ChapterInput, ChapterView, ChapterViewModel, MangaDetail, MangaFetch,
    MangaInput, MangaSummary, PageRow, Store, StoreModel,
};

verus! {

/// The provider fetch a read path asks its caller to make: which
/// source to borrow from the registry, and the provider-relative path
/// to fetch.
#[derive(Debug)]
pub struct FetchTarget {
    pub source: String,
    pub path: String,
}

/// What a detail read decides: answer from the cache, or fetch.
#[derive(Debug)]
pub enum DetailStep {
    /// The cached detail is complete; serve it.
    Done(MangaDetail),
    /// The cached detail is absent or incomplete; fetch it.
    Fetch(FetchTarget),
}

/// What a chapters read decides: answer from the cache, or fetch.
#[derive(Debug)]
pub enum ChaptersStep {
    /// The cache is authoritative; serve it.
    Done(Vec<ChapterView>),
    /// Nothing cached, or a forced refresh; fetch.
    Fetch(FetchTarget),
}

/// What a pages read decides: answer from the cache, or fetch.
#[derive(Debug)]
pub enum PagesStep {
    /// Cached pages exist; serve them.
    Done(Vec<PageRow>),
    /// Nothing cached (possibly after a forced delete); fetch.
    Fetch(FetchTarget),
}

/// Where the image proxy must go for a page's bytes, and the content
/// type to serve them under.
#[derive(Debug)]
pub struct ImageTarget {
    pub source: String,
    pub url: String,
    pub content_type: String,
}

/// What an install flow's caller must do between the registry steps:
/// download `download_path` from the catalog and write it as
/// `name`.`suffix` in the install directory.
#[derive(Debug)]
pub struct InstallPlan {
    pub name: String,
    pub download_path: String,
    pub suffix: String,
    pub had_previous: bool,
}

/// The aggregate a "read" view serves: the manga, all its chapters,
/// the selected chapter and its pages.
#[derive(Debug)]
pub struct ReadResponse {
    pub manga: MangaDetail,
    pub chapters: Vec<ChapterView>,
    pub chapter: ChapterView,
    pub pages: Vec<PageRow>,
}

/// The mathematical value of a [`Manga`] service: its cache and its
/// registry.
#[verifier::ext_equal]
pub struct ServiceModel {
    pub cache: StoreModel,
    pub registry: RegistryModel,
}

impl ServiceModel {
    /// Well-formedness of both components.
    pub open spec fn wf(self) -> bool {
        self.cache.wf() && self.registry.wf()
    }
}

/// The first catalog entry under this name, if any.
pub open spec fn spec_find_entry(
    entries: Seq<SourceIndexEntryModel>,
    name: Seq<char>,
) -> Option<SourceIndexEntryModel>
    decreases entries.len(),
{
    if entries.len() == 0 {
        None
    } else if entries[0].name == name {
        Some(entries[0])
    } else {
        spec_find_entry(entries.drop_first(), name)
    }
}

/// The first chapter in a list bearing this id, if any.
pub open spec fn spec_find_chapter(chapters: Seq<ChapterViewModel>, id: u64) -> Option<
    ChapterViewModel,
>
    decreases chapters.len(),
{
    if chapters.len() == 0 {
        None
    } else if chapters[0].id == id {
        Some(chapters[0])
    } else {
        spec_find_chapter(chapters.drop_first(), id)
    }
}

/// The content service: the cache orchestrator over one store and one
/// extension registry.
pub struct Manga {
    store: Store,
    registry: Registry,
}

impl View for Manga {
    type V = ServiceModel;

    closed spec fn view(&self) -> ServiceModel {
        ServiceModel { cache: self.store@, registry: self.registry@ }
    }
}

impl Manga {
    /// A service over an empty cache and the given registry.
    pub fn new(registry: Registry) -> (r: Manga)
        requires
            registry@.wf(),
        ensures
            r@.wf(),
            r@.registry == registry@,
            r@.cache.mangas.len() == 0,
            r@.cache.chapters.len() == 0,
            r@.cache.pages.len() == 0,
            r@.cache.favorites.len() == 0,
            r@.cache.reads.len() == 0,
            r@.cache.next_id == 0,
    {
        Manga { store: Store::new(), registry }
    }

    /// The next surrogate id the cache would assign; callers bound
    /// batch sizes against the id space with it.
    pub fn next_free_id(&self) -> (r: u64)
        ensures
            r as nat == self@.cache.next_id,
    {
        self.store.next_free_id()
    }

    /// Annotates a fetched catalog against the loaded handles: which
    /// sources are installed, and which updates this host can load.
    pub fn list_sources(&self, available: &Vec<SourceIndexEntry>) -> (r: Vec<SourceIndexEntry>)
        requires
            self@.wf(),
        ensures
            r.deep_view().len() == available.deep_view().len(),
            forall|i: int|
                0 <= i < available.deep_view().len() ==> r.deep_view()[i] == spec_annotated(
                    available.deep_view()[i],
                    self@.registry,
                ),
    {
        crate::catalog::annotate(&self.registry, available)
    }

    /// Whether a provider handle is loaded for this source; the login
    /// call itself is the caller's to make through that provider.
    pub fn source_login(&self, source: &String) -> (r: Result<(), CacheError>)
        requires
            self@.wf(),
        ensures
            r is Ok <==> self@.registry.has_source(source@),
            r is Err ==> r == Err::<(), CacheError>(CacheError::NotInstalled),
    {
        match self.registry.get(source) {
            Some(_) => Ok(()),
            None => Err(CacheError::NotInstalled),
        }
    }

    /// Begins installing a source: resolves the catalog entry, demands a
    /// platform suffix, and unloads any superseded handle so that no
    /// two live handles ever coexist. The caller then downloads and
    /// writes the binary before `finish_install`.
    pub fn install_source(
        &mut self,
        source_name: &String,
        catalog: &Vec<SourceIndexEntry>,
        suffix: &Option<String>,
    ) -> (r: Result<InstallPlan, InstallError>)
        requires
            old(self)@.wf(),
        ensures
            final(self)@.wf(),
            final(self)@.cache == old(self)@.cache,
            spec_find_entry(catalog.deep_view(), source_name@) is None ==> r
                == Err::<InstallPlan, InstallError>(InstallError::SourceNotFound) && final(self)@
                == old(self)@,
            spec_find_entry(catalog.deep_view(), source_name@) is Some && suffix is None ==> r
                == Err::<InstallPlan, InstallError>(InstallError::UnsupportedPlatform)
                && final(self)@ == old(self)@,
            spec_find_entry(catalog.deep_view(), source_name@) is Some && suffix is Some ==> ({
                &&& r matches Ok(plan)
                &&& (r matches Ok(plan) ==> {
                    &&& plan.name@ == source_name@
                    &&& plan.download_path@ == spec_find_entry(
                        catalog.deep_view(),
                        source_name@,
                    ).unwrap().path
                    &&& plan.suffix@ == suffix.unwrap()@
                    &&& plan.had_previous == old(self)@.registry.has_source(source_name@)
                })
                &&& !final(self)@.registry.has_source(source_name@)
                &&& (old(self)@.registry.has_source(source_name@)
                    ==> final(self)@.registry.handles == old(self)@.registry.handles.remove(
                    old(self)@.registry.index_of(source_name@),
                ))
                &&& (!old(self)@.registry.has_source(source_name@) ==> final(self)@.registry
                    == old(self)@.registry)
                &&& final(self)@.registry.host_core_abi == old(self)@.registry.host_core_abi
                &&& final(self)@.registry.host_toolchain == old(self)@.registry.host_toolchain
            }),
    {
        let entry_index = match find_entry(catalog, source_name) {
            Some(i) => i,
            None => {
                return Err(InstallError::SourceNotFound);
            },
        };
        let sfx = match suffix {
            Some(s) => s,
            None => {
                return Err(InstallError::UnsupportedPlatform);
            },
        };
        let had_previous = self.registry.get(source_name).is_some();
        if had_previous {
            match self.registry.unload(source_name) {
                Ok(_) => {},
                Err(_) => {},
            }
        }
        Ok(
            InstallPlan {
                name: source_name.clone(),
                download_path: catalog[entry_index].path.clone(),
                suffix: sfx.clone(),
                had_previous,
            },
        )
    }

    /// Finishes an install: loads the freshly written module unless a
    /// handle for the name is already present (then the existing one
    /// stands). A load refusal propagates unchanged.
    pub fn finish_install(&mut self, info: ProviderInfo) -> (r: Result<(), InstallError>)
        requires
            old(self)@.wf(),
        ensures
            final(self)@.wf(),
            final(self)@.cache == old(self)@.cache,
            old(self)@.registry.has_source(info@.name) ==> r is Ok && final(self)@ == old(self)@,
            !old(self)@.registry.has_source(info@.name) && old(self)@.registry.compatible(info@)
                ==> r is Ok && final(self)@.registry.handles
                == old(self)@.registry.handles.push(info@) && final(self)@.registry.has_source(
                info@.name,
            ) && final(self)@.registry.handle_of(info@.name) == info@,
            !old(self)@.registry.has_source(info@.name) && !old(self)@.registry.compatible(info@)
                ==> r == Err::<(), InstallError>(InstallError::Load(LoadError::AbiMismatch))
                && final(self)@ == old(self)@,
            final(self)@.registry.host_core_abi == old(self)@.registry.host_core_abi,
            final(self)@.registry.host_toolchain == old(self)@.registry.host_toolchain,
    {
        if self.registry.get(&info.name).is_some() {
            return Ok(());
        }
        match self.registry.load(info) {
            Ok(_) => Ok(()),
            Err(e) => Err(InstallError::Load(e)),
        }
    }

    /// Caches a provider listing and serves it back under the user's
    /// overlay. The registry must hold the source: a listing is only
    /// ever fetched through a loaded provider.
    pub fn list_mangas(
        &mut self,
        source: &String,
        user: &String,
        fetched: &Vec<MangaInput>,
    ) -> (r: Result<Vec<MangaSummary>, CacheError>)
        requires
            old(self)@.wf(),
            old(self)@.cache.next_id + fetched@.len() <= u64::MAX,
        ensures
            final(self)@.wf(),
            final(self)@.registry == old(self)@.registry,
            !old(self)@.registry.has_source(source@) ==> r == Err::<
                Vec<MangaSummary>,
                CacheError,
            >(CacheError::NotInstalled) && final(self)@ == old(self)@,
            old(self)@.registry.has_source(source@) ==> ({
                let (s2, ids) = old(self)@.cache.spec_insert_mangas_from(
                    source@,
                    fetched.deep_view(),
                    0,
                );
                &&& final(self)@.cache == s2
                &&& r matches Ok(v)
                &&& (r matches Ok(v) ==> v.deep_view() == s2.spec_summaries_from(user@, ids, 0))
            }),
    {
        if self.registry.get(source).is_none() {
            return Err(CacheError::NotInstalled);
        }
        let ids = self.store.insert_mangas(source, fetched);
        Ok(self.store.get_mangas(user, &ids))
    }

    /// Decides a detail read: serves the cached detail when it is
    /// complete (status, author list and description all present),
    /// otherwise names the fetch to make; an id that was never cached
    /// is `NotFound`, a source with no loaded handle `NotInstalled`.
    pub fn get_manga_info(&self, manga_id: u64, user: &String) -> (r: Result<
        DetailStep,
        CacheError,
    >)
        requires
            self@.wf(),
        ensures
            !self@.cache.has_manga_id(manga_id) ==> r == Err::<DetailStep, CacheError>(
                CacheError::NotFound,
            ),
            self@.cache.has_manga_id(manga_id) && spec_detail_complete(
                self@.cache.spec_detail(user@, manga_id),
            ) ==> (r matches Ok(s) && s matches DetailStep::Done(d) && d@ == self@.cache.spec_detail(
                user@,
                manga_id,
            )),
            self@.cache.has_manga_id(manga_id) && !spec_detail_complete(
                self@.cache.spec_detail(user@, manga_id),
            ) && !self@.registry.has_source(self@.cache.manga_by_id(manga_id).source) ==> r == Err::<
                DetailStep,
                CacheError,
            >(CacheError::NotInstalled),
            self@.cache.has_manga_id(manga_id) && !spec_detail_complete(
                self@.cache.spec_detail(user@, manga_id),
            ) && self@.registry.has_source(self@.cache.manga_by_id(manga_id).source) ==> (
            r matches Ok(s) && s matches DetailStep::Fetch(t) && t.source@
                == self@.cache.manga_by_id(manga_id).source && t.path@ == self@.cache.manga_by_id(
                manga_id,
            ).path),
    {
        let detail = match self.store.get_manga_detail(manga_id, user) {
            Some(d) => d,
            None => {
                return Err(CacheError::NotFound);
            },
        };
        let complete = detail.status.is_some() && detail.author.len() > 0
            && detail.description.is_some();
        if complete {
            return Ok(DetailStep::Done(detail));
        }
        if self.registry.get(&detail.source).is_none() {
            return Err(CacheError::NotInstalled);
        }
        Ok(DetailStep::Fetch(FetchTarget { source: detail.source, path: detail.path }))
    }

    /// Reconciles a fetched detail with the cache — populated shared
    /// fields never degrade — and serves the canonical record back
    /// under the user's overlay.
    pub fn apply_manga_info(&mut self, manga_id: u64, user: &String, fetched: &MangaFetch) -> (r:
        Result<MangaDetail, CacheError>)
        requires
            old(self)@.wf(),
        ensures
            final(self)@.wf(),
            final(self)@.registry == old(self)@.registry,
            final(self)@.cache == old(self)@.cache.spec_refine_manga(manga_id, fetched@),
            !old(self)@.cache.has_manga_id(manga_id) ==> r == Err::<MangaDetail, CacheError>(
                CacheError::NotFound,
            ) && final(self)@ == old(self)@,
            old(self)@.cache.has_manga_id(manga_id) ==> (r matches Ok(d) && d@ == old(
                self,
            )@.cache.spec_refine_manga(manga_id, fetched@).spec_detail(user@, manga_id)),
    {
        if !self.store.update_manga_info(manga_id, fetched) {
            proof {
                assert(final(self)@ =~= old(self)@);
            }
            return Err(CacheError::NotFound);
        }
        proof {
            let m2 = old(self)@.cache.spec_refine_manga(manga_id, fetched@);
            assert(m2.mangas[old(self)@.cache.manga_index(manga_id)].id == manga_id);
            assert(m2.has_manga_id(manga_id));
        }
        match self.store.get_manga_detail(manga_id, user) {
            Some(d) => Ok(d),
            None => {
                proof {
                    assert(false);
                }
                Err(CacheError::NotFound)
            },
        }
    }

    /// Decides a chapters read: the cache is authoritative unless a
    /// refresh is forced or nothing is cached; then the manga's
    /// provider is named for the fetch.
    pub fn get_chapters(&self, manga_id: u64, user: &String, refresh: bool) -> (r: Result<
        ChaptersStep,
        CacheError,
    >)
        requires
            self@.wf(),
        ensures
            ({
                let cached = self@.cache.spec_chapters_of_from(user@, manga_id, 0);
                &&& (!refresh && cached.len() > 0 ==> (r matches Ok(s)
                    && s matches ChaptersStep::Done(v) && v.deep_view() == cached))
                &&& ((refresh || cached.len() == 0) && !self@.cache.has_manga_id(manga_id) ==> r
                    == Err::<ChaptersStep, CacheError>(CacheError::NotFound))
                &&& ((refresh || cached.len() == 0) && self@.cache.has_manga_id(manga_id)
                    && !self@.registry.has_source(self@.cache.manga_by_id(manga_id).source) ==> r
                    == Err::<ChaptersStep, CacheError>(CacheError::NotInstalled))
                &&& ((refresh || cached.len() == 0) && self@.cache.has_manga_id(manga_id)
                    && self@.registry.has_source(self@.cache.manga_by_id(manga_id).source) ==> (
                r matches Ok(s) && s matches ChaptersStep::Fetch(t) && t.source@
                    == self@.cache.manga_by_id(manga_id).source && t.path@
                    == self@.cache.manga_by_id(manga_id).path))
            }),
    {
        if !refresh {
            let cached = self.store.get_chapters(manga_id, user);
            if cached.len() > 0 {
                return Ok(ChaptersStep::Done(cached));
            }
        }
        let manga = match self.store.get_manga(manga_id) {
            Some(m) => m,
            None => {
                return Err(CacheError::NotFound);
            },
        };
        if self.registry.get(&manga.source).is_none() {
            return Err(CacheError::NotInstalled);
        }
        Ok(ChaptersStep::Fetch(FetchTarget { source: manga.source, path: manga.path }))
    }

    /// Reconciles a fetched chapter list with the cache — repeated
    /// refreshes never duplicate a (manga, number) key — and serves
    /// the canonical list back under the user's overlay.
    pub fn apply_chapters(
        &mut self,
        manga_id: u64,
        user: &String,
        fetched: &Vec<ChapterInput>,
    ) -> (r: Vec<ChapterView>)
        requires
            old(self)@.wf(),
            old(self)@.cache.next_id + fetched@.len() <= u64::MAX,
        ensures
            final(self)@.wf(),
            final(self)@.registry == old(self)@.registry,
            final(self)@.cache == old(self)@.cache.spec_insert_chapters_from(
                manga_id,
                fetched.deep_view(),
                0,
            ),
            r.deep_view() == final(self)@.cache.spec_chapters_of_from(user@, manga_id, 0),
    {
        self.store.insert_chapters(manga_id, fetched);
        self.store.get_chapters(manga_id, user)
    }

    /// Decides a pages read. A forced refresh first deletes the
    /// chapter's cached pages wholesale. Cached pages satisfy the
    /// read; otherwise the owning chapter and manga resolve the
    /// provider to fetch from, and a chapter that was never cached is
    /// `NotFound`.
    pub fn get_pages(&mut self, chapter_id: u64, refresh: bool) -> (r: Result<
        PagesStep,
        CacheError,
    >)
        requires
            old(self)@.wf(),
        ensures
            final(self)@.wf(),
            final(self)@.registry == old(self)@.registry,
            ({
                let m1 = if refresh {
                    old(self)@.cache.spec_delete_pages(chapter_id)
                } else {
                    old(self)@.cache
                };
                let cached = m1.spec_pages_of(chapter_id);
                &&& final(self)@.cache == m1
                &&& (cached.len() > 0 ==> (r matches Ok(s) && s matches PagesStep::Done(v)
                    && v.deep_view() == cached))
                &&& (cached.len() == 0 && !m1.has_chapter_id(chapter_id) ==> r == Err::<
                    PagesStep,
                    CacheError,
                >(CacheError::NotFound))
                &&& (cached.len() == 0 && m1.has_chapter_id(chapter_id) && !m1.has_manga_id(
                    m1.chapter_by_id(chapter_id).manga_id,
                ) ==> r == Err::<PagesStep, CacheError>(CacheError::NotFound))
                &&& (cached.len() == 0 && m1.has_chapter_id(chapter_id) && m1.has_manga_id(
                    m1.chapter_by_id(chapter_id).manga_id,
                ) && !final(self)@.registry.has_source(
                    m1.manga_by_id(m1.chapter_by_id(chapter_id).manga_id).source,
                ) ==> r == Err::<PagesStep, CacheError>(CacheError::NotInstalled))
                &&& (cached.len() == 0 && m1.has_chapter_id(chapter_id) && m1.has_manga_id(
                    m1.chapter_by_id(chapter_id).manga_id,
                ) && final(self)@.registry.has_source(
                    m1.manga_by_id(m1.chapter_by_id(chapter_id).manga_id).source,
                ) ==> (r matches Ok(s) && s matches PagesStep::Fetch(t) && t.source@
                    == m1.manga_by_id(m1.chapter_by_id(chapter_id).manga_id).source && t.path@
                    == m1.chapter_by_id(chapter_id).path))
            }),
    {
        if refresh {
            self.store.delete_pages(chapter_id);
        }
        let cached = self.store.get_pages(chapter_id);
        if cached.len() > 0 {
            return Ok(PagesStep::Done(cached));
        }
        let chapter = match self.store.get_chapter(chapter_id) {
            Some(c) => c,
            None => {
                return Err(CacheError::NotFound);
            },
        };
        let manga = match self.store.get_manga(chapter.manga_id) {
            Some(m) => m,
            None => {
                return Err(CacheError::NotFound);
            },
        };
        if self.registry.get(&manga.source).is_none() {
            return Err(CacheError::NotInstalled);
        }
        Ok(PagesStep::Fetch(FetchTarget { source: manga.source, path: chapter.path }))
    }

    /// Reconciles a fetched page list with the cache — reference `k`
    /// under rank `k` — and serves the canonical rows back.
    pub fn apply_pages(&mut self, chapter_id: u64, urls: &Vec<String>) -> (r: Vec<PageRow>)
        requires
            old(self)@.wf(),
            old(self)@.cache.next_id + urls@.len() <= u64::MAX,
            urls@.len() <= u64::MAX,
        ensures
            final(self)@.wf(),
            final(self)@.registry == old(self)@.registry,
            final(self)@.cache == old(self)@.cache.spec_insert_pages_from(
                chapter_id,
                urls.deep_view(),
                0,
            ),
            r.deep_view() == final(self)@.cache.spec_pages_of(chapter_id),
    {
        self.store.insert_pages(chapter_id, urls);
        self.store.get_pages(chapter_id)
    }

    /// Resolves a page id to the provider source holding its image,
    /// the image reference, and the content type to serve the bytes
    /// under; the byte fetch itself is the caller's to make.
    pub fn proxy_image(&self, page_id: u64) -> (r: Result<ImageTarget, CacheError>)
        requires
            self@.wf(),
        ensures
            self@.cache.spec_image_source(page_id) is None ==> r == Err::<ImageTarget, CacheError>(
                CacheError::NotFound,
            ),
            self@.cache.spec_image_source(page_id) matches Some(su) ==> (r matches Ok(t)
                && t.source@ == su.0 && t.url@ == su.1 && t.content_type@
                == crate::media::spec_content_type(su.1)),
    {
        match self.store.get_image_from_page_id(page_id) {
            Some((source, url)) => {
                let content_type = crate::media::image_content_type(&url);
                Ok(ImageTarget { source, url, content_type })
            },
            None => Err(CacheError::NotFound),
        }
    }

    /// Records a user's favorite flag for a manga (overlay state; the
    /// shared row is untouched).
    pub fn set_favorite(&mut self, user: &String, manga_id: u64, fav: bool)
        requires
            old(self)@.wf(),
        ensures
            final(self)@.wf(),
            final(self)@.registry == old(self)@.registry,
            final(self)@.cache == old(self)@.cache.spec_set_favorite(user@, manga_id, fav),
    {
        self.store.set_favorite(user, manga_id, fav);
    }

    /// Records a user's read progress for a chapter (overlay state).
    pub fn set_chapter_read(&mut self, user: &String, chapter_id: u64, pages_read: u64)
        requires
            old(self)@.wf(),
        ensures
            final(self)@.wf(),
            final(self)@.registry == old(self)@.registry,
            final(self)@.cache == old(self)@.cache.spec_set_read(user@, chapter_id, pages_read),
    {
        self.store.set_chapter_read(user, chapter_id, pages_read);
    }
}

/// Assembles the composite "read" view from its independently fetched
/// parts, failing `ChapterNotFound` when the requested chapter id is
/// absent from the manga's chapters — however cacheable the parts
/// are.
pub fn read(
    manga: MangaDetail,
    chapters: Vec<ChapterView>,
    pages: Vec<PageRow>,
    chapter_id: u64,
) -> (r: Result<ReadResponse, CacheError>)
    ensures
        spec_find_chapter(chapters.deep_view(), chapter_id) is None ==> r == Err::<
            ReadResponse,
            CacheError,
        >(CacheError::ChapterNotFound),
        spec_find_chapter(chapters.deep_view(), chapter_id) matches Some(c) ==> (r matches Ok(resp)
            && resp.manga == manga && resp.chapters.deep_view() == chapters.deep_view()
            && resp.chapter@ == c && resp.pages.deep_view() == pages.deep_view()),
{
    let ghost chm = chapters.deep_view();
    match find_chapter_index(&chapters, chapter_id) {
        Some(i) => {
            let c = &chapters[i];
            let chapter = ChapterView {
                id: c.id,
                number: c.number.clone(),
                path: c.path.clone(),
                uploaded: c.uploaded,
                read: c.read,
            };
            proof {
                assert(chapter@ =~= chm[i as int]);
            }
            Ok(ReadResponse { manga, chapters, chapter, pages })
        },
        None => Err(CacheError::ChapterNotFound),
    }
}

/// The index of the first catalog entry under this name, if any.
fn find_entry(catalog: &Vec<SourceIndexEntry>, name: &String) -> (r: Option<usize>)
    ensures
        match r {
            Some(i) => i < catalog.deep_view().len() && spec_find_entry(
                catalog.deep_view(),
                name@,
            ) == Some(catalog.deep_view()[i as int]),
            None => spec_find_entry(catalog.deep_view(), name@) is None,
        },
{
    let ghost cm = catalog.deep_view();
    let n = catalog.len();
    let mut i: usize = 0;
    proof {
        assert(cm.skip(0) =~= cm);
    }
    while i < n
        invariant
            n == catalog.len(),
            cm == catalog.deep_view(),
            cm.len() == n,
            i <= n,
            spec_find_entry(cm, name@) == spec_find_entry(cm.skip(i as int), name@),
        decreases n - i,
    {
        proof {
            assert(cm.skip(i as int).len() > 0);
            assert(cm.skip(i as int)[0] == cm[i as int]);
            assert(cm.skip(i as int).drop_first() =~= cm.skip(i + 1));
        }
        if catalog[i].name == *name {
            return Some(i);
        }
        i += 1;
    }
    proof {
        assert(cm.skip(n as int) =~= Seq::<SourceIndexEntryModel>::empty());
    }
    None
}

/// The index of the first chapter in the list bearing this id, if
/// any.
fn find_chapter_index(chapters: &Vec<ChapterView>, id: u64) -> (r: Option<usize>)
    ensures
        match r {
            Some(i) => i < chapters.deep_view().len() && spec_find_chapter(
                chapters.deep_view(),
                id,
            ) == Some(chapters.deep_view()[i as int]),
            None => spec_find_chapter(chapters.deep_view(), id) is None,
        },
{
    let ghost chm = chapters.deep_view();
    let n = chapters.len();
    let mut i: usize = 0;
    proof {
        assert(chm.skip(0) =~= chm);
    }
    while i < n
        invariant
            n == chapters.len(),
            chm == chapters.deep_view(),
            chm.len() == n,
            i <= n,
            spec_find_chapter(chm, id) == spec_find_chapter(chm.skip(i as int), id),
        decreases n - i,
    {
        proof {
            assert(chm.skip(i as int).len() > 0);
            assert(chm.skip(i as int)[0] == chm[i as int]);
            assert(chm.skip(i as int).drop_first() =~= chm.skip(i + 1));
        }
        if chapters[i].id == id {
            return Some(i);
        }
        i += 1;
    }
    proof {
        assert(chm.skip(n as int) =~= Seq::<ChapterViewModel>::empty());
    }
    None
}

} // verus!
