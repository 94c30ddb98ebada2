use std::io::Write;

use chum_resolver::listing::list_repositories;
use chum_resolver::resolver::{Handler, ScriptedFetcher};
use chum_resolver::web::{handle, route, urls_body, Error, Route};
use chum_resolver::index::PackageUrlSet;

fn gz(data: &[u8]) -> Vec<u8> {
    let mut e = flate2::write::GzEncoder::new(Vec::new(), flate2::Compression::default());
    e.write_all(data).unwrap();
    e.finish().unwrap()
}

#[test]
fn listing_groups_and_sorts_descending() {
    let page = b">1.2.3.4_i486/< >1.2.3.4_aarch64/< >1.2.2.0_i486/<";
    let r = list_repositories(page);
    assert_eq!(
        r.repositories,
        vec![
            (b"1.2.3.4".to_vec(), vec![b"i486".to_vec(), b"aarch64".to_vec()]),
            (b"1.2.2.0".to_vec(), vec![b"i486".to_vec()]),
        ]
    );
}

#[test]
fn listing_reopens_a_non_contiguous_version() {
    let page = b">1.2.3.4_i486/< >1.2.2.0_i486/< >1.2.3.4_aarch64/<";
    let r = list_repositories(page);
    assert_eq!(
        r.repositories,
        vec![
            (b"1.2.3.4".to_vec(), vec![b"i486".to_vec()]),
            (b"1.2.3.4".to_vec(), vec![b"aarch64".to_vec()]),
            (b"1.2.2.0".to_vec(), vec![b"i486".to_vec()]),
        ]
    );
}

#[test]
fn listing_of_a_page_without_tokens_is_empty() {
    let r = list_repositories(b"<html>nothing here</html>");
    assert_eq!(r.repositories, Vec::<(Vec<u8>, Vec<Vec<u8>>)>::new());
}

#[test]
fn route_recognizes_the_three_shapes() {
    assert!(matches!(route(b"/.netlify/functions/lambda/repositories"), Route::Repositories));
    match route(b"/.netlify/functions/lambda/packages/4.5.0.19/aarch64") {
        Route::Packages(id) => assert_eq!(id, b"4.5.0.19_aarch64".to_vec()),
        _ => panic!("expected a packages route"),
    }
    assert!(matches!(route(b"/something/else"), Route::NotFound));
    assert!(matches!(route(b"/.netlify/functions/lambda/packages/one-segment"), Route::NotFound));
}

#[test]
fn unknown_route_answers_not_found() {
    let mut f = ScriptedFetcher::new(vec![]);
    let mut h = Handler::new();
    let r = handle(&mut h, &mut f, b"/no/such/path");
    assert_eq!(r.status, 404);
    assert_eq!(r.body, b"{\"error\": \"Not found\"}".to_vec());
    assert_eq!(f.remaining(), 0);
}

#[test]
fn repositories_request_renders_the_listing() {
    let mut f = ScriptedFetcher::new(vec![Ok(b">1.2.3.4_i486/< >1.2.3.4_aarch64/<".to_vec())]);
    let mut h = Handler::new();
    let r = handle(&mut h, &mut f, b"/.netlify/functions/lambda/repositories");
    assert_eq!(r.status, 200);
    assert_eq!(
        r.body,
        b"[{\"version\":\"1.2.3.4\",\"architectures\":[\"i486\",\"aarch64\"]}]".to_vec()
    );
}

#[test]
fn packages_request_renders_the_urls() {
    let desc = br#"<repomd><data type="primary"><checksum>c</checksum><location href="repodata/primary.xml.gz"/></data></repomd>"#.to_vec();
    let idx = gz(
        br#"<metadata><package><name>sailfishos-chum-gui</name><location href="g.rpm"/></package></metadata>"#,
    );
    let mut f = ScriptedFetcher::new(vec![Ok(desc), Ok(idx)]);
    let mut h = Handler::new();
    let r = handle(&mut h, &mut f, b"/.netlify/functions/lambda/packages/4.5.0.19/aarch64");
    assert_eq!(r.status, 200);
    assert_eq!(
        r.body,
        b"{\"chum_url\":\"\",\"gui_url\":\"https://repo.sailfishos.org/obs/sailfishos:/chum/4.5.0.19_aarch64/g.rpm\"}".to_vec()
    );
}

#[test]
fn packages_request_surfaces_errors_as_500() {
    let mut f = ScriptedFetcher::new(vec![Err(b"timeout".to_vec())]);
    let mut h = Handler::new();
    let r = handle(&mut h, &mut f, b"/.netlify/functions/lambda/packages/1.0.0.0/i486");
    assert_eq!(r.status, 500);
    assert_eq!(r.body, b"{\"error\": \"timeout\"}".to_vec());
}

#[test]
fn json_strings_are_escaped() {
    let u = PackageUrlSet { chum_url: b"a\"b\\c".to_vec(), gui_url: vec![0x07u8, b'\n'] };
    assert_eq!(
        urls_body(&u),
        b"{\"chum_url\":\"a\\\"b\\\\c\",\"gui_url\":\"\\u0007\\n\"}".to_vec()
    );
}

#[test]
fn error_body_frames_the_message_verbatim() {
    let e = Error { error: b"boom".to_vec() };
    assert_eq!(e.to_json(), b"{\"error\": \"boom\"}".to_vec());
}
