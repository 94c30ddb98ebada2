use std::io::Write;

use chum_resolver::errors::ResolveError;
use chum_resolver::resolver::{Handler, ScriptedFetcher};

fn gz(data: &[u8]) -> Vec<u8> {
    let mut e = flate2::write::GzEncoder::new(Vec::new(), flate2::Compression::default());
    e.write_all(data).unwrap();
    e.finish().unwrap()
}

fn descriptor(checksum: &str) -> Vec<u8> {
    format!(
        r#"<repomd><data type="primary"><checksum>{}</checksum><location href="repodata/primary.xml.gz"/></data></repomd>"#,
        checksum
    )
    .into_bytes()
}

fn index(gui_href: &str) -> Vec<u8> {
    gz(format!(
        r#"<metadata>
          <package><name>sailfishos-chum-repo-config</name><location href="noarch/config.rpm"/></package>
          <package><name>sailfishos-chum-gui</name><location href="{}"/></package>
        </metadata>"#,
        gui_href
    )
    .as_bytes())
}

const BASE: &str = "https://repo.sailfishos.org/obs/sailfishos:/chum/4.5.0.19_aarch64/";

#[test]
fn first_resolution_fetches_descriptor_and_index() {
    let mut f = ScriptedFetcher::new(vec![Ok(descriptor("c1")), Ok(index("x86/gui-1.rpm"))]);
    let mut h = Handler::new();
    let u = h.resolve(&mut f, b"4.5.0.19_aarch64").unwrap();
    assert_eq!(u.chum_url, format!("{}noarch/config.rpm", BASE).into_bytes());
    assert_eq!(u.gui_url, format!("{}x86/gui-1.rpm", BASE).into_bytes());
    assert_eq!(f.remaining(), 0);
}

#[test]
fn unchanged_checksum_skips_the_index_fetch() {
    // Two descriptor fetches, one index: the second resolution must not ask
    // for the index again — had it asked, the exhausted script would have
    // failed it.
    let mut f = ScriptedFetcher::new(vec![
        Ok(descriptor("c1")),
        Ok(index("x86/gui-1.rpm")),
        Ok(descriptor("c1")),
    ]);
    let mut h = Handler::new();
    let u1 = h.resolve(&mut f, b"4.5.0.19_aarch64").unwrap();
    let u2 = h.resolve(&mut f, b"4.5.0.19_aarch64").unwrap();
    assert_eq!(f.remaining(), 0);
    assert_eq!(u1.chum_url, u2.chum_url);
    assert_eq!(u1.gui_url, u2.gui_url);
}

#[test]
fn repeated_resolution_is_byte_identical() {
    let mut f = ScriptedFetcher::new(vec![
        Ok(descriptor("c1")),
        Ok(index("x86/gui-1.rpm")),
        Ok(descriptor("c1")),
        Ok(descriptor("c1")),
    ]);
    let mut h = Handler::new();
    let u1 = h.resolve(&mut f, b"4.5.0.19_aarch64").unwrap();
    let u2 = h.resolve(&mut f, b"4.5.0.19_aarch64").unwrap();
    let u3 = h.resolve(&mut f, b"4.5.0.19_aarch64").unwrap();
    assert_eq!(f.remaining(), 0);
    assert_eq!(u1.chum_url, u2.chum_url);
    assert_eq!(u1.gui_url, u2.gui_url);
    assert_eq!(u2.chum_url, u3.chum_url);
    assert_eq!(u2.gui_url, u3.gui_url);
}

#[test]
fn changed_checksum_refreshes_and_updates_the_cache() {
    let mut f = ScriptedFetcher::new(vec![
        Ok(descriptor("c1")),
        Ok(index("x86/gui-1.rpm")),
        Ok(descriptor("c2")),
        Ok(index("x86/gui-2.rpm")),
        Ok(descriptor("c2")),
    ]);
    let mut h = Handler::new();
    let u1 = h.resolve(&mut f, b"4.5.0.19_aarch64").unwrap();
    assert_eq!(u1.gui_url, format!("{}x86/gui-1.rpm", BASE).into_bytes());
    let u2 = h.resolve(&mut f, b"4.5.0.19_aarch64").unwrap();
    assert_eq!(u2.gui_url, format!("{}x86/gui-2.rpm", BASE).into_bytes());
    // The third resolution is served from the refreshed cache entry.
    let u3 = h.resolve(&mut f, b"4.5.0.19_aarch64").unwrap();
    assert_eq!(u3.gui_url, u2.gui_url);
    assert_eq!(f.remaining(), 0);
}

#[test]
fn failed_refresh_surfaces_error_and_preserves_the_cache() {
    let mut f = ScriptedFetcher::new(vec![
        Ok(descriptor("c1")),
        Ok(index("x86/gui-1.rpm")),
        Ok(descriptor("c2")),
        Err(b"connection reset".to_vec()),
        Ok(descriptor("c2")),
        Ok(index("x86/gui-2.rpm")),
    ]);
    let mut h = Handler::new();
    let u1 = h.resolve(&mut f, b"4.5.0.19_aarch64").unwrap();
    // The failing refresh surfaces the transport error, not stale data.
    let e = h.resolve(&mut f, b"4.5.0.19_aarch64").unwrap_err();
    assert!(matches!(e, ResolveError::Transport(m) if m == b"connection reset".to_vec()));
    // Once the failure clears, the refresh really happens: the prior entry
    // was neither replaced by the failure nor mistaken for fresh data.
    let u3 = h.resolve(&mut f, b"4.5.0.19_aarch64").unwrap();
    assert_eq!(u1.gui_url, format!("{}x86/gui-1.rpm", BASE).into_bytes());
    assert_eq!(u3.gui_url, format!("{}x86/gui-2.rpm", BASE).into_bytes());
    assert_eq!(f.remaining(), 0);
}

#[test]
fn descriptor_transport_failure_aborts_resolution() {
    let mut f = ScriptedFetcher::new(vec![Err(b"dns".to_vec())]);
    let mut h = Handler::new();
    let e = h.resolve(&mut f, b"r_a").unwrap_err();
    assert!(matches!(e, ResolveError::Transport(m) if m == b"dns".to_vec()));
}

#[test]
fn entries_of_different_identifiers_do_not_collide() {
    // Both repositories share a checksum; each still resolves its own URLs.
    let mut f = ScriptedFetcher::new(vec![
        Ok(descriptor("c1")),
        Ok(index("a/gui.rpm")),
        Ok(descriptor("c1")),
        Ok(index("b/gui.rpm")),
    ]);
    let mut h = Handler::new();
    let u1 = h.resolve(&mut f, b"4.5.0.19_aarch64").unwrap();
    let u2 = h.resolve(&mut f, b"4.5.0.19_i486").unwrap();
    assert!(u1.gui_url.ends_with(b"a/gui.rpm"));
    assert!(u2.gui_url.ends_with(b"b/gui.rpm"));
    assert_eq!(f.remaining(), 0);
}
