use tanoshi::catalog::SourceIndexEntry;
use tanoshi::errors::{CacheError, InstallError, LoadError};
use tanoshi::registry::{ProviderInfo, Registry};
use tanoshi::service::{
    read, ChaptersStep, DetailStep, Manga, PagesStep,
};
use tanoshi::store::{ChapterInput, ChapterView, MangaFetch, MangaInput};
use tanoshi::Version;

const ABI: &str = "abi-3";
const TOOLCHAIN: &str = "rustc-1.45";

fn provider(name: &str) -> ProviderInfo {
    ProviderInfo {
        name: name.to_string(),
        version: Version { major: 1, minor: 0, patch: 0 },
        core_abi: ABI.to_string(),
        toolchain: TOOLCHAIN.to_string(),
    }
}

fn service_with(sources: &[&str]) -> Manga {
    let mut reg = Registry::new(ABI.to_string(), TOOLCHAIN.to_string());
    for s in sources {
        reg.load(provider(s)).unwrap();
    }
    Manga::new(reg)
}

fn listing(title: &str, path: &str) -> MangaInput {
    MangaInput {
        title: title.to_string(),
        path: path.to_string(),
        thumbnail_url: format!("https://img.example{}.png", path),
    }
}

fn full_fetch() -> MangaFetch {
    MangaFetch {
        author: vec!["Oda".to_string()],
        status: Some("Ongoing".to_string()),
        description: Some("A long voyage.".to_string()),
    }
}

fn chapter(number: &str, path: &str, uploaded: i64) -> ChapterInput {
    ChapterInput { number: number.to_string(), path: path.to_string(), uploaded }
}

#[test]
fn list_mangas_requires_loaded_source() {
    let mut svc = service_with(&[]);
    let user = "alice".to_string();
    let r = svc.list_mangas(&"mangadex".to_string(), &user, &vec![listing("One", "/one")]);
    assert_eq!(r.unwrap_err(), CacheError::NotInstalled);
}

#[test]
fn list_mangas_caches_and_serves_in_listing_order() {
    let mut svc = service_with(&["mangadex"]);
    let user = "alice".to_string();
    let src = "mangadex".to_string();
    let got = svc
        .list_mangas(&src, &user, &vec![listing("One", "/one"), listing("Two", "/two")])
        .unwrap();
    assert_eq!(got.len(), 2);
    assert_eq!(got[0].title, "One".to_string());
    assert_eq!(got[1].title, "Two".to_string());
    assert_ne!(got[0].id, got[1].id);
    assert!(!got[0].is_favorite);
}

#[test]
fn second_listing_upsert_is_noop_with_same_ids() {
    // the sequential witness of the concurrent scenario: the second
    // writer's upsert of the same (source, path) keys must not mint
    // new surrogate ids
    let mut svc = service_with(&["mangadex"]);
    let user = "alice".to_string();
    let src = "mangadex".to_string();
    let items = vec![listing("One", "/one"), listing("Two", "/two")];
    let first = svc.list_mangas(&src, &user, &items).unwrap();
    let second = svc.list_mangas(&src, &user, &items).unwrap();
    assert_eq!(first.len(), second.len());
    assert_eq!(first[0].id, second[0].id);
    assert_eq!(first[1].id, second[1].id);
}

#[test]
fn detail_fetch_and_cache_is_idempotent_and_then_hits_cache() {
    let mut svc = service_with(&["mangadex"]);
    let user = "alice".to_string();
    let src = "mangadex".to_string();
    let got = svc.list_mangas(&src, &user, &vec![listing("One", "/one")]).unwrap();
    let id = got[0].id;

    // freshly listed: detail incomplete, so the read asks for a fetch
    let step = svc.get_manga_info(id, &user).unwrap();
    match step {
        DetailStep::Fetch(t) => {
            assert_eq!(t.source, src);
            assert_eq!(t.path, "/one".to_string());
        },
        DetailStep::Done(_) => panic!("incomplete detail must not be served"),
    }

    let d1 = svc.apply_manga_info(id, &user, &full_fetch()).unwrap();
    assert_eq!(d1.status, Some("Ongoing".to_string()));
    assert_eq!(d1.author, vec!["Oda".to_string()]);

    // applying the same provider output again changes nothing
    let d2 = svc.apply_manga_info(id, &user, &full_fetch()).unwrap();
    assert_eq!(d2.id, d1.id);
    assert_eq!(d2.author, d1.author);
    assert_eq!(d2.status, d1.status);
    assert_eq!(d2.description, d1.description);

    // and the next read is a pure cache hit
    match svc.get_manga_info(id, &user).unwrap() {
        DetailStep::Done(d) => {
            assert_eq!(d.id, id);
            assert_eq!(d.description, Some("A long voyage.".to_string()));
        },
        DetailStep::Fetch(_) => panic!("complete detail must be a cache hit"),
    }
}

#[test]
fn refinement_never_degrades_populated_fields() {
    let mut svc = service_with(&["mangadex"]);
    let user = "alice".to_string();
    let src = "mangadex".to_string();
    let id = svc.list_mangas(&src, &user, &vec![listing("One", "/one")]).unwrap()[0].id;
    svc.apply_manga_info(id, &user, &full_fetch()).unwrap();
    // a later, emptier fetch must not erase what is known
    let empty = MangaFetch { author: vec![], status: None, description: None };
    let d = svc.apply_manga_info(id, &user, &empty).unwrap();
    assert_eq!(d.author, vec!["Oda".to_string()]);
    assert_eq!(d.status, Some("Ongoing".to_string()));
    assert_eq!(d.description, Some("A long voyage.".to_string()));
}

#[test]
fn detail_of_unknown_id_fails_not_found() {
    let svc = service_with(&["mangadex"]);
    let r = svc.get_manga_info(99, &"alice".to_string());
    assert_eq!(r.unwrap_err(), CacheError::NotFound);
}

#[test]
fn detail_fetch_needs_loaded_source() {
    let mut svc = service_with(&["mangadex"]);
    let user = "alice".to_string();
    let src = "mangadex".to_string();
    let id = svc.list_mangas(&src, &user, &vec![listing("One", "/one")]).unwrap()[0].id;
    // an install begins: the handle is unloaded while the detail is
    // still incomplete, so the read cannot name a provider to fetch from
    let catalog = vec![catalog_entry("mangadex", 2, 0, 0)];
    svc.install_source(&src, &catalog, &Some("so".to_string())).unwrap();
    let r = svc.get_manga_info(id, &user);
    assert_eq!(r.unwrap_err(), CacheError::NotInstalled);
}

#[test]
fn chapters_cache_is_authoritative_until_refresh() {
    let mut svc = service_with(&["mangadex"]);
    let user = "alice".to_string();
    let src = "mangadex".to_string();
    let id = svc.list_mangas(&src, &user, &vec![listing("One", "/one")]).unwrap()[0].id;

    // nothing cached yet: fetch
    match svc.get_chapters(id, &user, false).unwrap() {
        ChaptersStep::Fetch(t) => assert_eq!(t.path, "/one".to_string()),
        ChaptersStep::Done(_) => panic!("empty cache must not satisfy a chapters read"),
    }
    let ch = svc.apply_chapters(
        id,
        &user,
        &vec![chapter("1", "/one/1", 100), chapter("2", "/one/2", 200)],
    );
    assert_eq!(ch.len(), 2);

    // now the cache answers
    match svc.get_chapters(id, &user, false).unwrap() {
        ChaptersStep::Done(v) => {
            assert_eq!(v.len(), 2);
            assert_eq!(v[0].number, "1".to_string());
        },
        ChaptersStep::Fetch(_) => panic!("cached chapters must satisfy the read"),
    }

    // a forced refresh bypasses it
    match svc.get_chapters(id, &user, true).unwrap() {
        ChaptersStep::Fetch(t) => assert_eq!(t.source, src),
        ChaptersStep::Done(_) => panic!("refresh must bypass the cache"),
    }

    // repeated refresh output never duplicates the (manga, number) key
    let again = svc.apply_chapters(
        id,
        &user,
        &vec![chapter("1", "/one/1", 100), chapter("2", "/one/2", 200)],
    );
    assert_eq!(again.len(), 2);
    assert_eq!(again[0].id, ch[0].id);
    assert_eq!(again[1].id, ch[1].id);
}

#[test]
fn chapters_of_unknown_manga_fail_not_found() {
    let svc = service_with(&["mangadex"]);
    let r = svc.get_chapters(7, &"alice".to_string(), false);
    assert_eq!(r.unwrap_err(), CacheError::NotFound);
}

fn cached_chapter(svc: &mut Manga) -> (u64, u64) {
    let user = "alice".to_string();
    let src = "mangadex".to_string();
    let manga_id = svc.list_mangas(&src, &user, &vec![listing("One", "/one")]).unwrap()[0].id;
    let ch = svc.apply_chapters(manga_id, &user, &vec![chapter("1", "/one/1", 100)]);
    (manga_id, ch[0].id)
}

#[test]
fn forced_page_refresh_replaces_all_pages_exactly() {
    let mut svc = service_with(&["mangadex"]);
    let (_, chapter_id) = cached_chapter(&mut svc);

    match svc.get_pages(chapter_id, false).unwrap() {
        PagesStep::Fetch(t) => assert_eq!(t.path, "/one/1".to_string()),
        PagesStep::Done(_) => panic!("no pages cached yet"),
    }
    let stale = vec!["a.png".to_string(), "b.png".to_string(), "c.png".to_string()];
    let first = svc.apply_pages(chapter_id, &stale);
    assert_eq!(first.len(), 3);

    // refresh: all three rows go, the provider's current output lands
    match svc.get_pages(chapter_id, true).unwrap() {
        PagesStep::Fetch(_) => {},
        PagesStep::Done(_) => panic!("forced refresh must delete the cached pages"),
    }
    let fresh = vec!["x.png".to_string(), "y.png".to_string()];
    let second = svc.apply_pages(chapter_id, &fresh);
    assert_eq!(second.len(), 2);
    assert_eq!(second[0].rank, 0);
    assert_eq!(second[0].url, "x.png".to_string());
    assert_eq!(second[1].rank, 1);
    assert_eq!(second[1].url, "y.png".to_string());
    // no stale rank survives
    match svc.get_pages(chapter_id, false).unwrap() {
        PagesStep::Done(v) => assert_eq!(v.len(), 2),
        PagesStep::Fetch(_) => panic!("fresh pages must satisfy the read"),
    }
}

#[test]
fn pages_of_unknown_chapter_fail_not_found() {
    let mut svc = service_with(&["mangadex"]);
    let r = svc.get_pages(42, false);
    assert_eq!(r.unwrap_err(), CacheError::NotFound);
}

#[test]
fn composite_read_fails_chapter_not_found() {
    let mut svc = service_with(&["mangadex"]);
    let user = "alice".to_string();
    let src = "mangadex".to_string();
    let manga_id = svc.list_mangas(&src, &user, &vec![listing("One", "/one")]).unwrap()[0].id;
    svc.apply_manga_info(manga_id, &user, &full_fetch()).unwrap();
    let chapters = svc.apply_chapters(manga_id, &user, &vec![chapter("1", "/one/1", 100)]);
    let chapter_id = chapters[0].id;
    let pages = svc.apply_pages(chapter_id, &vec!["a.png".to_string()]);
    let detail = match svc.get_manga_info(manga_id, &user).unwrap() {
        DetailStep::Done(d) => d,
        DetailStep::Fetch(_) => panic!("detail is complete"),
    };

    // both manga and chapters are cacheable, yet an absent chapter id
    // must fail the composite read
    let absent = chapter_id + 1000;
    let r = read(detail, chapters, pages, absent);
    assert_eq!(r.unwrap_err(), CacheError::ChapterNotFound);
}

#[test]
fn composite_read_assembles_the_aggregate() {
    let mut svc = service_with(&["mangadex"]);
    let user = "alice".to_string();
    let src = "mangadex".to_string();
    let manga_id = svc.list_mangas(&src, &user, &vec![listing("One", "/one")]).unwrap()[0].id;
    svc.apply_manga_info(manga_id, &user, &full_fetch()).unwrap();
    let chapters = svc.apply_chapters(
        manga_id,
        &user,
        &vec![chapter("1", "/one/1", 100), chapter("2", "/one/2", 200)],
    );
    let chapter_id = chapters[1].id;
    let pages = svc.apply_pages(chapter_id, &vec!["a.png".to_string(), "b.png".to_string()]);
    let detail = match svc.get_manga_info(manga_id, &user).unwrap() {
        DetailStep::Done(d) => d,
        DetailStep::Fetch(_) => panic!("detail is complete"),
    };
    let resp = read(detail, chapters, pages, chapter_id).unwrap();
    assert_eq!(resp.chapter.id, chapter_id);
    assert_eq!(resp.chapter.number, "2".to_string());
    assert_eq!(resp.chapters.len(), 2);
    assert_eq!(resp.pages.len(), 2);
    assert_eq!(resp.manga.title, "One".to_string());
}

#[test]
fn overlay_tracks_favorite_and_read_progress_per_user() {
    let mut svc = service_with(&["mangadex"]);
    let alice = "alice".to_string();
    let bob = "bob".to_string();
    let src = "mangadex".to_string();
    let manga_id = svc.list_mangas(&src, &alice, &vec![listing("One", "/one")]).unwrap()[0].id;
    svc.apply_manga_info(manga_id, &alice, &full_fetch()).unwrap();
    let chapters = svc.apply_chapters(manga_id, &alice, &vec![chapter("1", "/one/1", 100)]);
    let chapter_id = chapters[0].id;

    svc.set_favorite(&alice, manga_id, true);
    svc.set_chapter_read(&alice, chapter_id, 7);

    match svc.get_manga_info(manga_id, &alice).unwrap() {
        DetailStep::Done(d) => assert!(d.is_favorite),
        DetailStep::Fetch(_) => panic!("detail is complete"),
    }
    match svc.get_manga_info(manga_id, &bob).unwrap() {
        DetailStep::Done(d) => assert!(!d.is_favorite),
        DetailStep::Fetch(_) => panic!("detail is complete"),
    }
    match svc.get_chapters(manga_id, &alice, false).unwrap() {
        ChaptersStep::Done(v) => assert_eq!(v[0].read, Some(7)),
        ChaptersStep::Fetch(_) => panic!("chapters are cached"),
    }
    match svc.get_chapters(manga_id, &bob, false).unwrap() {
        ChaptersStep::Done(v) => assert_eq!(v[0].read, None),
        ChaptersStep::Fetch(_) => panic!("chapters are cached"),
    }

    svc.set_favorite(&alice, manga_id, false);
    match svc.get_manga_info(manga_id, &alice).unwrap() {
        DetailStep::Done(d) => assert!(!d.is_favorite),
        DetailStep::Fetch(_) => panic!("detail is complete"),
    }
}

fn catalog_entry(name: &str, major: u64, minor: u64, patch: u64) -> SourceIndexEntry {
    SourceIndexEntry {
        name: name.to_string(),
        path: format!("{}/plugin", name),
        version: Version { major, minor, patch },
        core_abi: ABI.to_string(),
        toolchain: TOOLCHAIN.to_string(),
        installed: false,
        installed_version: None,
        update_available: false,
    }
}

#[test]
fn install_unknown_source_fails_source_not_found() {
    let mut svc = service_with(&[]);
    let catalog = vec![catalog_entry("mangadex", 1, 0, 0)];
    let r = svc.install_source(&"mangasee".to_string(), &catalog, &Some("so".to_string()));
    assert_eq!(r.unwrap_err(), InstallError::SourceNotFound);
}

#[test]
fn install_without_platform_suffix_fails_unsupported_platform() {
    let mut svc = service_with(&[]);
    let catalog = vec![catalog_entry("mangadex", 1, 0, 0)];
    let r = svc.install_source(&"mangadex".to_string(), &catalog, &None);
    assert_eq!(r.unwrap_err(), InstallError::UnsupportedPlatform);
}

#[test]
fn finish_install_propagates_abi_mismatch() {
    let mut svc = service_with(&[]);
    let mut bad = provider("mangadex");
    bad.core_abi = "abi-9".to_string();
    let r = svc.finish_install(bad);
    assert_eq!(r.unwrap_err(), InstallError::Load(LoadError::AbiMismatch));
}

#[test]
fn installing_over_loaded_source_leaves_one_handle_with_new_version() {
    // "foo" 0.9.0 is loaded; the catalog carries 1.0.0
    let mut reg = Registry::new(ABI.to_string(), TOOLCHAIN.to_string());
    reg.load(ProviderInfo {
        name: "foo".to_string(),
        version: Version { major: 0, minor: 9, patch: 0 },
        core_abi: ABI.to_string(),
        toolchain: TOOLCHAIN.to_string(),
    })
    .unwrap();
    let mut svc = Manga::new(reg);
    let catalog = vec![catalog_entry("foo", 1, 0, 0)];

    let plan = svc
        .install_source(&"foo".to_string(), &catalog, &Some("so".to_string()))
        .unwrap();
    assert!(plan.had_previous);
    assert_eq!(plan.name, "foo".to_string());
    assert_eq!(plan.download_path, "foo/plugin".to_string());
    assert_eq!(plan.suffix, "so".to_string());

    // the caller downloads and writes the binary here, then:
    let new_handle = ProviderInfo {
        name: "foo".to_string(),
        version: Version { major: 1, minor: 0, patch: 0 },
        core_abi: ABI.to_string(),
        toolchain: TOOLCHAIN.to_string(),
    };
    svc.finish_install(new_handle).unwrap();

    // exactly one handle named "foo", reporting 1.0.0
    let annotated = svc.list_sources(&catalog);
    assert_eq!(annotated.len(), 1);
    assert!(annotated[0].installed);
    assert_eq!(
        annotated[0].installed_version,
        Some(Version { major: 1, minor: 0, patch: 0 })
    );
    assert!(!annotated[0].update_available);
}

#[test]
fn source_login_demands_loaded_handle() {
    let svc = service_with(&["mangadex"]);
    assert!(svc.source_login(&"mangadex".to_string()).is_ok());
    assert_eq!(
        svc.source_login(&"mangasee".to_string()).unwrap_err(),
        CacheError::NotInstalled
    );
}

#[test]
fn describe_names_each_cache_error() {
    assert_eq!(CacheError::NotInstalled.describe(), "source not installed");
    assert_eq!(CacheError::NotFound.describe(), "not found");
    assert_eq!(CacheError::ChapterNotFound.describe(), "chapter not found");
    assert_eq!(CacheError::ProviderError.describe(), "provider call failed");
}

#[test]
fn read_finds_first_matching_chapter() {
    let chapters = vec![
        ChapterView {
            id: 5,
            number: "1".to_string(),
            path: "/c/1".to_string(),
            uploaded: 1,
            read: None,
        },
        ChapterView {
            id: 6,
            number: "2".to_string(),
            path: "/c/2".to_string(),
            uploaded: 2,
            read: Some(3),
        },
    ];
    let manga = tanoshi::store::MangaDetail {
        id: 1,
        source: "mangadex".to_string(),
        path: "/one".to_string(),
        title: "One".to_string(),
        thumbnail_url: "t.png".to_string(),
        author: vec![],
        status: None,
        description: None,
        is_favorite: false,
    };
    let resp = read(manga, chapters, vec![], 6).unwrap();
    assert_eq!(resp.chapter.read, Some(3));
}
