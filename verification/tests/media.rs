use tanoshi::errors::CacheError;
use tanoshi::media::image_content_type;
use tanoshi::registry::{ProviderInfo, Registry};
use tanoshi::service::Manga;
use tanoshi::store::{ChapterInput, MangaInput};
use tanoshi::Version;

#[test]
fn content_type_comes_from_url_path_extension() {
    // the query string must not confuse the guess: the URL's path
    // component decides
    let r = image_content_type(&"https://img.example/p/a.png?token=1".to_string());
    assert_eq!(r, "image/png".to_string());
}

#[test]
fn content_type_of_bare_reference_uses_the_reference_itself() {
    let r = image_content_type(&"covers/pic.jpeg".to_string());
    assert_eq!(r, "image/jpeg".to_string());
}

#[test]
fn unknown_extension_falls_back_to_octet_stream() {
    let r = image_content_type(&"https://img.example/p/blob.zz9".to_string());
    assert_eq!(r, "application/octet-stream".to_string());
}

#[test]
fn proxy_image_resolves_source_reference_and_type() {
    let mut reg = Registry::new("abi-3".to_string(), "rustc-1.45".to_string());
    reg.load(ProviderInfo {
        name: "mangadex".to_string(),
        version: Version { major: 1, minor: 0, patch: 0 },
        core_abi: "abi-3".to_string(),
        toolchain: "rustc-1.45".to_string(),
    })
    .unwrap();
    let mut svc = Manga::new(reg);
    let user = "alice".to_string();
    let src = "mangadex".to_string();
    let manga_id = svc
        .list_mangas(
            &src,
            &user,
            &vec![MangaInput {
                title: "One".to_string(),
                path: "/one".to_string(),
                thumbnail_url: "t.png".to_string(),
            }],
        )
        .unwrap()[0]
        .id;
    let chapters = svc.apply_chapters(
        manga_id,
        &user,
        &vec![ChapterInput {
            number: "1".to_string(),
            path: "/one/1".to_string(),
            uploaded: 100,
        }],
    );
    let pages = svc.apply_pages(
        chapters[0].id,
        &vec!["https://img.example/one/1/0.png".to_string()],
    );

    let t = svc.proxy_image(pages[0].id).unwrap();
    assert_eq!(t.source, "mangadex".to_string());
    assert_eq!(t.url, "https://img.example/one/1/0.png".to_string());
    assert_eq!(t.content_type, "image/png".to_string());
}

#[test]
fn proxy_image_of_unknown_page_fails_not_found() {
    let reg = Registry::new("abi-3".to_string(), "rustc-1.45".to_string());
    let svc = Manga::new(reg);
    assert_eq!(svc.proxy_image(123).unwrap_err(), CacheError::NotFound);
}
