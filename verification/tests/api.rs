use openparts_server::config::{parse_port, port_or_default, DEFAULT_PORT};
use openparts_server::error::{ApiError, Diagnostic};
use openparts_server::hash::{content_hash_value, hex_encode};
use openparts_server::loader::{classify_kind, document_step, peek_kind, DocumentKind, LoadError, LoadStep};
use openparts_server::routes::{
    artifact_links, check_validation, generation_result, model_inputs, part_revisions,
    resolve_triple, search,
};
use openparts_server::store::{DeviceEntry, PackageEntry, PartEntry, Revision, Store};

fn part(manufacturer: &str, mpn: &str, device: &str, package: &str) -> PartEntry<u32> {
    PartEntry {
        manufacturer: manufacturer.to_string(),
        mpn: mpn.to_string(),
        device: device.to_string(),
        package: package.to_string(),
        data: 0,
    }
}

fn revision(id: &str, manufacturer_revision: &str) -> Revision {
    Revision { id: id.to_string(), manufacturer_revision: manufacturer_revision.to_string() }
}

/// A small index shaped like the openparts-data fixtures.
fn fixture() -> Store<u32, u32, u32> {
    let mut store = Store::new();
    store.insert_part(part("raspberrypi", "RP2040", "raspberrypi/RP2040", "qfn-56-7x7"));
    store.insert_part(part("espressif", "ESP32-C6", "espressif/ESP32-C6", "qfn-40-5x5"));
    store.insert_part(part("yageo", "RC0603FR-0710KL", "yageo/RC0603", "chip-0603"));
    store.insert_device(DeviceEntry {
        id: "raspberrypi/RP2040".to_string(),
        revisions: vec![revision("rev-b2", "B2"), revision("rev-b0", "B0"), revision("rev-b1", "B1")],
        data: 1,
    });
    store.insert_device(DeviceEntry { id: "espressif/ESP32-C6".to_string(), revisions: vec![], data: 2 });
    store.insert_package(PackageEntry { id: "qfn-56-7x7".to_string(), data: 3 });
    store.insert_package(PackageEntry { id: "chip-0603".to_string(), data: 4 });
    store.insert_source("rp2040-datasheet".to_string());
    store.insert_source("esp32-c6-datasheet".to_string());
    store
}

#[test]
fn search_index_finds_rp2040_by_mpn() {
    let store = fixture();
    let found = search(&store, Some("RP2040"));
    assert_eq!(found.len(), 1);
    assert_eq!(found[0].mpn, "RP2040");
    assert_eq!(found[0].manufacturer, "raspberrypi");
}

#[test]
fn search_is_case_insensitive_over_mpn_and_manufacturer() {
    let store = fixture();
    let by_mpn = search(&store, Some("rp2040"));
    assert_eq!(by_mpn.len(), 1);
    assert_eq!(by_mpn[0].mpn, "RP2040");
    let by_manufacturer = search(&store, Some("YAGEO"));
    assert_eq!(by_manufacturer.len(), 1);
    assert_eq!(by_manufacturer[0].mpn, "RC0603FR-0710KL");
    assert!(search(&store, Some("nothing-like-this")).is_empty());
}

#[test]
fn search_without_query_lists_all_in_key_order() {
    let store = fixture();
    let all = search(&store, None);
    let keys: Vec<(String, String)> =
        all.iter().map(|p| (p.manufacturer.clone(), p.mpn.clone())).collect();
    assert_eq!(
        keys,
        vec![
            ("espressif".to_string(), "ESP32-C6".to_string()),
            ("raspberrypi".to_string(), "RP2040".to_string()),
            ("yageo".to_string(), "RC0603FR-0710KL".to_string()),
        ]
    );
    assert_eq!(search(&store, Some("")).len(), 3);
}

#[test]
fn search_orders_by_manufacturer_then_mpn() {
    let mut store: Store<u32, u32, u32> = Store::new();
    store.insert_part(part("b", "X2", "d", "k"));
    store.insert_part(part("a", "Z", "d", "k"));
    store.insert_part(part("b", "X10", "d", "k"));
    store.insert_part(part("ab", "A", "d", "k"));
    let found = search(&store, Some("x"));
    let mpns: Vec<&str> = found.iter().map(|p| p.mpn.as_str()).collect();
    assert_eq!(mpns, vec!["X10", "X2"]);
    let all = search(&store, None);
    let keys: Vec<(&str, &str)> =
        all.iter().map(|p| (p.manufacturer.as_str(), p.mpn.as_str())).collect();
    assert_eq!(keys, vec![("a", "Z"), ("ab", "A"), ("b", "X10"), ("b", "X2")]);
}

#[test]
fn resolve_unknown_part_is_404_not_found() {
    let store = fixture();
    let err = store.resolve_part("nobody", "NOPE").unwrap_err();
    assert_eq!(err.status_code(), 404);
    let body = err.into_body();
    assert_eq!(body.error, "no part nobody/NOPE");
    assert!(body.diagnostics.is_empty());
}

#[test]
fn resolve_part_finds_rp2040() {
    let store = fixture();
    let p = store.resolve_part("raspberrypi", "RP2040").unwrap();
    assert_eq!(p.mpn, "RP2040");
    assert_eq!(p.device, "raspberrypi/RP2040");
}

#[test]
fn resolve_device_id_containing_slash() {
    let store = fixture();
    let d = store.resolve_device("raspberrypi/RP2040").unwrap();
    assert_eq!(d.data, 1);
    let err = store.resolve_device("raspberrypi").unwrap_err();
    assert!(matches!(&err, ApiError::NotFound(m) if m == "no device raspberrypi"));
}

#[test]
fn unknown_package_is_not_found() {
    let store = fixture();
    let err = store.resolve_package("sot-23").unwrap_err();
    assert!(matches!(&err, ApiError::NotFound(m) if m == "no package sot-23"));
    assert_eq!(err.status_code(), 404);
}

#[test]
fn insert_replaces_entry_with_same_key() {
    let mut store = fixture();
    let mut replacement = part("raspberrypi", "RP2040", "raspberrypi/RP2040", "qfn-56-7x7");
    replacement.data = 42;
    store.insert_part(replacement);
    assert_eq!(store.resolve_part("raspberrypi", "RP2040").unwrap().data, 42);
    assert_eq!(search(&store, None).len(), 3);
    assert_eq!(store.resolve_part("yageo", "RC0603FR-0710KL").unwrap().data, 0);
}

#[test]
fn revisions_are_sorted_by_id() {
    let store = fixture();
    let revs = part_revisions(&store, "raspberrypi", "RP2040").unwrap();
    let ids: Vec<&str> = revs.iter().map(|r| r.id.as_str()).collect();
    assert_eq!(ids, vec!["rev-b0", "rev-b1", "rev-b2"]);
    assert_eq!(revs[2].manufacturer_revision, "B2");
}

#[test]
fn revisions_fail_for_missing_part_or_device() {
    let store = fixture();
    let err = part_revisions(&store, "nobody", "NOPE").unwrap_err();
    assert!(matches!(&err, ApiError::NotFound(m) if m == "no part nobody/NOPE"));
    let err = part_revisions(&store, "yageo", "RC0603FR-0710KL").unwrap_err();
    assert!(matches!(&err, ApiError::NotFound(m) if m == "no device yageo/RC0603"));
}

#[test]
fn artifact_links_point_under_the_part() {
    let store = fixture();
    let links = artifact_links(&store, "raspberrypi", "RP2040").unwrap();
    assert_eq!(links.kicad_symbol, "/v1/parts/raspberrypi/RP2040/artifacts/kicad-symbol");
    assert_eq!(links.kicad_footprint, "/v1/parts/raspberrypi/RP2040/artifacts/kicad-footprint");
    assert_eq!(links.step, "/v1/parts/raspberrypi/RP2040/artifacts/step");
    assert!(artifact_links(&store, "nobody", "NOPE").is_err());
}

#[test]
fn triple_resolution_reports_first_missing_entity() {
    let store = fixture();
    let t = resolve_triple(&store, "raspberrypi", "RP2040").unwrap();
    assert_eq!((t.part.data, t.device.data, t.package.data), (0, 1, 3));
    let err = resolve_triple(&store, "espressif", "ESP32-C6").unwrap_err();
    assert!(matches!(&err, ApiError::NotFound(m) if m == "no package qfn-40-5x5"));
    let err = resolve_triple(&store, "yageo", "RC0603FR-0710KL").unwrap_err();
    assert!(matches!(&err, ApiError::NotFound(m) if m == "no device yageo/RC0603"));
}

#[test]
fn model_inputs_carry_known_sources() {
    let store = fixture();
    let inputs = model_inputs(&store, "raspberrypi", "RP2040").unwrap();
    let mut sources = inputs.known_sources.clone();
    sources.sort();
    assert_eq!(sources, vec!["esp32-c6-datasheet".to_string(), "rp2040-datasheet".to_string()]);
}

#[test]
fn validation_diagnostics_block_with_422() {
    assert!(check_validation(vec![]).is_ok());
    let diag = Diagnostic {
        rule_id: "OPV-001".to_string(),
        severity: "Error".to_string(),
        entity: "raspberrypi/RP2040".to_string(),
        field_path: Some("pins".to_string()),
        message: "pin count mismatch".to_string(),
    };
    let err = check_validation(vec![diag]).unwrap_err();
    assert_eq!(err.status_code(), 422);
    let body = err.into_body();
    assert_eq!(body.error, "validation failed");
    assert_eq!(body.diagnostics.len(), 1);
    assert_eq!(body.diagnostics[0].message, "pin count mismatch");
}

#[test]
fn generation_failure_is_answered_with_422() {
    let outcome: Result<u8, String> = Err("unknown silicon revision does-not-exist".to_string());
    let err = generation_result(outcome).unwrap_err();
    assert_eq!(err.status_code(), 422);
    assert_eq!(err.into_body().error, "unknown silicon revision does-not-exist");
    assert_eq!(generation_result::<u8>(Ok(7)).unwrap(), 7);
}

#[test]
fn hex_encode_writes_two_lowercase_digits_per_byte() {
    assert_eq!(hex_encode(&[]), "");
    assert_eq!(hex_encode(&[0x00, 0x0f, 0xab, 0xff, 0x10]), "000fabff10");
}

#[test]
fn content_hash_is_sha256_of_the_text() {
    assert_eq!(
        content_hash_value(""),
        "sha256:e3b0c44298fc1c149afbf4c8996fb92427ae41e4649b934ca495991b7852b855"
    );
    assert_eq!(
        content_hash_value("abc"),
        "sha256:ba7816bf8f01cfea414140de5dae2223b00361a396177a9cb410ff61f20015ad"
    );
    assert_eq!(content_hash_value("(kicad_symbol_lib)").len(), 71);
}

#[test]
fn peek_kind_reads_the_kind_field() {
    assert_eq!(peek_kind("a.yaml", "kind: part\nmpn: RP2040\n").unwrap(), Some("part".to_string()));
    assert_eq!(peek_kind("b.yaml", "mpn: RP2040\n").unwrap(), None);
    assert_eq!(peek_kind("c.yaml", "kind: 5\n").unwrap(), None);
    assert_eq!(peek_kind("d.yaml", "- kind\n").unwrap(), None);
    match peek_kind("bad.yaml", "kind: [unclosed") {
        Err(LoadError::Yaml { path, .. }) => assert_eq!(path, "bad.yaml"),
        other => panic!("expected a YAML error, got {:?}", other),
    }
}

#[test]
fn classify_kind_dispatches_known_kinds() {
    assert!(matches!(classify_kind("part"), DocumentKind::Part));
    assert!(matches!(classify_kind("device"), DocumentKind::Device));
    assert!(matches!(classify_kind("package"), DocumentKind::Package));
    assert!(matches!(classify_kind("source"), DocumentKind::Source));
    assert!(matches!(classify_kind("manufacturer"), DocumentKind::Other));
    assert!(matches!(classify_kind("Part"), DocumentKind::Other));
}

#[test]
fn port_setting_parses_like_u16() {
    assert_eq!(port_or_default(None), DEFAULT_PORT);
    assert_eq!(port_or_default(Some("3000")), 3000);
    assert_eq!(port_or_default(Some("+80")), 80);
    assert_eq!(port_or_default(Some("65535")), 65535);
    assert_eq!(port_or_default(Some("65536")), 8080);
    assert_eq!(port_or_default(Some("")), 8080);
    assert_eq!(port_or_default(Some("+")), 8080);
    assert_eq!(port_or_default(Some("-1")), 8080);
    assert_eq!(port_or_default(Some(" 80")), 8080);
    assert_eq!(parse_port("007"), Some(7));
    for s in ["0", "1", "443", "8080", "65535", "65536", "99999", "+", "-0", "1a", "", "+12"] {
        assert_eq!(parse_port(s), s.parse::<u16>().ok(), "{s}");
    }
}

#[test]
fn counts_follow_distinct_keys() {
    let mut store = fixture();
    assert_eq!(
        (store.part_count(), store.device_count(), store.package_count(), store.source_count()),
        (3, 2, 2, 2)
    );
    store.insert_source("rp2040-datasheet".to_string());
    store.insert_package(PackageEntry { id: "chip-0603".to_string(), data: 9 });
    assert_eq!((store.package_count(), store.source_count()), (2, 2));
    assert_eq!(store.resolve_package("chip-0603").unwrap().data, 9);
}

#[test]
fn search_order_is_string_order_beyond_ascii() {
    let mut store: Store<u32, u32, u32> = Store::new();
    store.insert_part(part("\u{e9}mile", "E1", "d", "k"));
    store.insert_part(part("zeta", "Z1", "d", "k"));
    store.insert_part(part("Zeta", "Z0", "d", "k"));
    let all = search(&store, None);
    let mut expected: Vec<(String, String)> =
        all.iter().map(|p| (p.manufacturer.clone(), p.mpn.clone())).collect();
    let got = expected.clone();
    expected.sort();
    assert_eq!(got, expected);
    assert_eq!(got[0].0, "Zeta");
    assert_eq!(search(&store, Some("\u{c9}MILE")).len(), 1);
}

#[test]
fn document_step_follows_the_kind_field() {
    assert_eq!(
        document_step("p.yaml", "kind: part\nmpn: RP2040\n").unwrap(),
        LoadStep::Load(DocumentKind::Part)
    );
    assert_eq!(
        document_step("m.yaml", "kind: manufacturer\n").unwrap(),
        LoadStep::Load(DocumentKind::Other)
    );
    assert_eq!(document_step("n.yaml", "id: x\n").unwrap(), LoadStep::MissingKind);
    assert_eq!(document_step("t.yaml", "kind: !custom device\n").unwrap(), LoadStep::Load(DocumentKind::Device));
    assert!(matches!(
        document_step("bad.yaml", "kind: [unclosed"),
        Err(LoadError::Yaml { path, .. }) if path == "bad.yaml"
    ));
}

#[test]
fn hex_decodes_back_pair_by_pair() {
    let bytes: Vec<u8> = (0u8..=255).collect();
    let s = hex_encode(&bytes);
    let back: Vec<u8> =
        (0..s.len() / 2).map(|i| u8::from_str_radix(&s[2 * i..2 * i + 2], 16).unwrap()).collect();
    assert_eq!(back, bytes);
}

#[test]
fn queries_that_lowercase_alike_get_the_same_list() {
    let store = fixture();
    let keys = |q: &str| -> Vec<(String, String)> {
        search(&store, Some(q)).iter().map(|p| (p.manufacturer.clone(), p.mpn.clone())).collect()
    };
    assert_eq!(keys("rp2040"), keys("RP2040"));
    assert_eq!(keys("E"), keys("e"));
    let wide = keys("e");
    for k in keys("es") {
        assert!(wide.contains(&k));
    }
}
