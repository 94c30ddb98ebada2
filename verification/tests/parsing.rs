use std::io::Write;

use chum_resolver::descriptor::parse_descriptor;
use chum_resolver::errors::ResolveError;
use chum_resolver::index::parse_index;

fn gz(data: &[u8]) -> Vec<u8> {
    let mut e = flate2::write::GzEncoder::new(Vec::new(), flate2::Compression::default());
    e.write_all(data).unwrap();
    e.finish().unwrap()
}

const DESCRIPTOR: &str = r#"<repomd>
  <data type="filelists"><checksum>zzz</checksum></data>
  <data type="primary">
    <checksum type="sha256">abc123</checksum>
    <open-checksum>def</open-checksum>
    <location href="repodata/primary.xml.gz"/>
  </data>
</repomd>"#;

#[test]
fn descriptor_extracts_checksum_and_location() {
    let d = parse_descriptor(DESCRIPTOR.as_bytes()).unwrap();
    assert_eq!(d.checksum, b"abc123".to_vec());
    assert_eq!(d.index_location, b"repodata/primary.xml.gz".to_vec());
}

#[test]
fn descriptor_without_primary_entry_fails() {
    let doc = r#"<repomd><data type="filelists"><checksum>z</checksum></data></repomd>"#;
    let e = parse_descriptor(doc.as_bytes()).unwrap_err();
    assert!(matches!(e, ResolveError::MissingIndexDescriptor));
}

#[test]
fn descriptor_without_checksum_fails() {
    let doc = r#"<repomd><data type="primary"><location href="x"/></data></repomd>"#;
    let e = parse_descriptor(doc.as_bytes()).unwrap_err();
    assert!(matches!(e, ResolveError::MissingChecksum));
}

#[test]
fn descriptor_without_location_fails() {
    let doc = r#"<repomd><data type="primary"><checksum>c</checksum></data></repomd>"#;
    let e = parse_descriptor(doc.as_bytes()).unwrap_err();
    assert!(matches!(e, ResolveError::MissingLocation));
}

#[test]
fn descriptor_location_without_href_fails() {
    let doc = r#"<repomd><data type="primary"><checksum>c</checksum><location/></data></repomd>"#;
    let e = parse_descriptor(doc.as_bytes()).unwrap_err();
    assert!(matches!(e, ResolveError::MissingLocationHref));
}

#[test]
fn descriptor_malformed_xml_fails() {
    let e = parse_descriptor(b"<repomd><data").unwrap_err();
    assert!(matches!(e, ResolveError::MalformedDescriptor));
}

const INDEX: &str = r#"<metadata>
  <package type="rpm">
    <name>sailfishos-chum-repo-config</name>
    <location href="noarch/config-1.rpm"/>
  </package>
  <package type="rpm">
    <name>sailfishos-chum-gui</name>
    <location href="x86/gui-2.rpm"/>
  </package>
  <package type="rpm">
    <name>something-else</name>
    <location href="other.rpm"/>
  </package>
</metadata>"#;

#[test]
fn index_resolves_both_tracked_packages() {
    let u = parse_index(&gz(INDEX.as_bytes()), b"https://host/repo/").unwrap();
    assert_eq!(u.chum_url, b"https://host/repo/noarch/config-1.rpm".to_vec());
    assert_eq!(u.gui_url, b"https://host/repo/x86/gui-2.rpm".to_vec());
}

#[test]
fn index_without_tracked_packages_yields_empty_urls() {
    let doc = r#"<metadata><package><name>unrelated</name><location href="u.rpm"/></package></metadata>"#;
    let u = parse_index(&gz(doc.as_bytes()), b"https://host/repo/").unwrap();
    assert_eq!(u.chum_url, Vec::<u8>::new());
    assert_eq!(u.gui_url, Vec::<u8>::new());
}

#[test]
fn index_first_match_wins_over_duplicates() {
    let doc = r#"<metadata>
      <package><name>sailfishos-chum-gui</name><location href="first.rpm"/></package>
      <package><name>sailfishos-chum-gui</name><location href="second.rpm"/></package>
    </metadata>"#;
    let u = parse_index(&gz(doc.as_bytes()), b"b/").unwrap();
    assert_eq!(u.gui_url, b"b/first.rpm".to_vec());
}

#[test]
fn index_first_match_without_location_stays_empty() {
    let doc = r#"<metadata>
      <package><name>sailfishos-chum-gui</name></package>
      <package><name>sailfishos-chum-gui</name><location href="late.rpm"/></package>
    </metadata>"#;
    let u = parse_index(&gz(doc.as_bytes()), b"b/").unwrap();
    assert_eq!(u.gui_url, Vec::<u8>::new());
}

#[test]
fn index_not_gzip_fails_decompression() {
    let e = parse_index(b"<metadata></metadata>", b"b/").unwrap_err();
    assert!(matches!(e, ResolveError::DecompressionFailed));
}

#[test]
fn index_malformed_xml_fails() {
    let e = parse_index(&gz(b"<metadata><package"), b"b/").unwrap_err();
    assert!(matches!(e, ResolveError::MalformedIndex));
}

#[test]
fn error_messages_match_the_adapter_wire_text() {
    assert_eq!(
        ResolveError::MissingIndexDescriptor.message(),
        b"Cannot find \"primary\" data in repomd.xml".to_vec()
    );
    assert_eq!(
        ResolveError::Transport(b"boom".to_vec()).message(),
        b"boom".to_vec()
    );
}
