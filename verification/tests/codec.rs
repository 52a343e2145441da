use scrybe::tools::{extract_report, ExtractReport};
use scrybe::codec::{
    crc32, embed, embed_with_uuid, encode_chunk, encode_itxt, extract, extract_unverified,
    parse_chunks, payload_truncated, stamp_png, MermaidError, VerificationStatus,
};
use scrybe::digest::source_sha256;
use sha2::Digest;
use scrybe::svg::{inject_metadata, rasterize, MermaidRenderError, SCRYBE_MERMAID_NS};

const PNG_SIG: &[u8] = b"\x89PNG\r\n\x1a\n";

fn minimal_png() -> Vec<u8> {
    let mut out = PNG_SIG.to_vec();
    let ihdr: &[u8] = &[0, 0, 0, 1, 0, 0, 0, 1, 8, 2, 0, 0, 0];
    out.extend_from_slice(&encode_chunk(b"IHDR", ihdr));
    let idat: &[u8] = &[0x08, 0xd7, 0x63, 0xf8, 0xcf, 0xc0, 0x00, 0x00, 0x00, 0x02, 0x00, 0x01];
    out.extend_from_slice(&encode_chunk(b"IDAT", idat));
    out.extend_from_slice(&encode_chunk(b"IEND", &[]));
    out
}

/// Re-encodes `png` with the payload text's `from` replaced by `to`.
fn tamper_itxt(png: &[u8], from: &str, to: &str) -> Vec<u8> {
    let mut out = PNG_SIG.to_vec();
    for (t, d) in parse_chunks(png).unwrap() {
        if &t == b"iTXt" {
            let text = String::from_utf8(d[19..].to_vec()).unwrap().replace(from, to);
            out.extend_from_slice(&encode_itxt(&text));
        } else {
            out.extend_from_slice(&encode_chunk(&t, &d));
        }
    }
    out
}

#[test]
fn crc32_matches_the_png_reference_values() {
    assert_eq!(crc32(b""), 0);
    assert_eq!(crc32(b"123456789"), 0xCBF4_3926);
    assert_eq!(crc32(b"IEND"), 0xAE42_6082);
}

#[test]
fn encode_chunk_lays_out_length_type_data_crc() {
    let c = encode_chunk(b"IEND", &[]);
    assert_eq!(c, vec![0, 0, 0, 0, b'I', b'E', b'N', b'D', 0xAE, 0x42, 0x60, 0x82]);
}

#[test]
fn embed_extract_roundtrip_is_verified() {
    let png = minimal_png();
    let source = "graph TD; A --> B";
    let out = embed_with_uuid(&png, source, "fixed-test-id-123").unwrap();
    let p = extract(&out).unwrap();
    assert_eq!(p.source, source);
    assert_eq!(p.uuid, "fixed-test-id-123");
    assert!(p.is_verified());
    assert_eq!(p.sha256(), Some(source_sha256(source).as_str()));
}

#[test]
fn embed_keeps_chunks_and_inserts_before_iend() {
    let png = minimal_png();
    let out = embed_with_uuid(&png, "x", "u").unwrap();
    let types: Vec<[u8; 4]> = parse_chunks(&out).unwrap().into_iter().map(|c| c.0).collect();
    assert_eq!(types, vec![*b"IHDR", *b"IDAT", *b"iTXt", *b"IEND"]);
    let before = parse_chunks(&png).unwrap();
    let after = parse_chunks(&out).unwrap();
    assert_eq!(before[0], after[0]);
    assert_eq!(before[1], after[1]);
}

#[test]
fn fresh_uuids_are_36_chars_and_unique() {
    let png = minimal_png();
    let a = extract(&embed(&png, "same").unwrap()).unwrap().uuid;
    let b = extract(&embed(&png, "same").unwrap()).unwrap().uuid;
    assert_eq!(a.len(), 36);
    assert_ne!(a, b);
}

#[test]
fn extract_without_payload_is_not_found() {
    assert!(matches!(extract(&minimal_png()), Err(MermaidError::NotFound)));
    assert!(!payload_truncated(&minimal_png()));
}

#[test]
fn invalid_signature_is_a_png_error() {
    assert!(matches!(embed(b"not a png at all", "x"), Err(MermaidError::Png(_))));
    assert!(matches!(extract(b"not a png at all"), Err(MermaidError::Png(_))));
}

#[test]
fn tampered_source_fails_verification_with_both_digests() {
    let png = minimal_png();
    let embedded = embed(&png, "graph TD; A-->B").unwrap();
    let tampered = tamper_itxt(&embedded, "A-->B", "A-->X");
    match extract(&tampered) {
        Err(MermaidError::VerificationFailed { algorithm, expected, actual }) => {
            assert_eq!(algorithm, "sha256");
            assert_eq!(expected, sha256_hex("graph TD; A-->B"), "expected = digest stored at embed");
            assert_eq!(actual, sha256_hex("graph TD; A-->X"), "actual = digest of tampered source");
            assert_ne!(expected, actual);
        }
        other => panic!("expected VerificationFailed, got {other:?}"),
    }
    let raw = extract_unverified(&tampered).unwrap();
    assert_eq!(raw.source, "graph TD; A-->X");
}

#[test]
fn payload_without_digest_is_no_digest() {
    let png = minimal_png();
    let embedded = embed_with_uuid(&png, "graph TD; A-->B", "id").unwrap();
    let digest = source_sha256("graph TD; A-->B");
    let stripped = tamper_itxt(&embedded, &digest, "");
    let p = extract(&stripped).unwrap();
    assert_eq!(p.verification, VerificationStatus::NoDigest);
    assert!(!p.is_verified());
}

#[test]
fn bad_json_payload_is_a_json_error() {
    let mut png = PNG_SIG.to_vec();
    png.extend_from_slice(&encode_itxt("{not json"));
    png.extend_from_slice(&encode_chunk(b"IEND", &[]));
    assert!(matches!(extract(&png), Err(MermaidError::Json(_))));
}

#[test]
fn source_sha256_is_stable_lowercase_hex() {
    let a = source_sha256("graph TD; A-->B");
    assert_eq!(a, source_sha256("graph TD; A-->B"));
    assert_eq!(a.len(), 64);
    assert!(a.chars().all(|c| c.is_ascii_hexdigit() && !c.is_ascii_uppercase()));
    assert_eq!(
        source_sha256(""),
        "e3b0c44298fc1c149afbf4c8996fb92427ae41e4649b934ca495991b7852b855"
    );
}

#[test]
fn inject_is_noop_without_svg_root() {
    let out = inject_metadata("no svg here", "graph TD; A-->B");
    assert_eq!(out, "no svg here");
}

#[test]
fn inject_places_escaped_source_and_digest_inside_svg() {
    let src = "graph TD; A-->B";
    let out = inject_metadata("<svg width=\"1\"><g/></svg>", src);
    let expected = format!(
        "<svg width=\"1\"><metadata xmlns:scrybe=\"{SCRYBE_MERMAID_NS}\"><scrybe:source>graph TD; A--&gt;B</scrybe:source><scrybe:sha256>{}</scrybe:sha256></metadata><g/></svg>",
        source_sha256(src)
    );
    assert_eq!(out, expected);
}

#[test]
fn rasterize_is_not_implemented() {
    assert!(matches!(rasterize("<svg/>"), Err(MermaidRenderError::NotImplemented(_))));
}

#[test]
fn extract_report_sorts_each_outcome() {
    let png = minimal_png();
    let embedded = embed_with_uuid(&png, "graph TD; A-->B", "id-7").unwrap();
    match extract_report(extract(&embedded)) {
        ExtractReport::Extracted { source, uuid, sha256, verified } => {
            assert_eq!(source, "graph TD; A-->B");
            assert_eq!(uuid, "id-7");
            assert_eq!(sha256, source_sha256("graph TD; A-->B"));
            assert!(verified);
        }
        other => panic!("expected Extracted, got {other:?}"),
    }
    let tampered = tamper_itxt(&embedded, "A-->B", "A-->X");
    match extract_report(extract(&tampered)) {
        ExtractReport::Tampered { algorithm, expected, actual } => {
            assert_eq!(algorithm, "sha256");
            assert_eq!(expected, source_sha256("graph TD; A-->B"));
            assert_eq!(actual, source_sha256("graph TD; A-->X"));
        }
        other => panic!("expected Tampered, got {other:?}"),
    }
    assert!(matches!(extract_report(extract(&png)), ExtractReport::NoPayload(MermaidError::NotFound)));
}

fn sha256_hex(s: &str) -> String {
    let mut hasher = sha2::Sha256::new();
    hasher.update(s.as_bytes());
    hex::encode(hasher.finalize())
}

/// `png` with an iTXt payload chunk holding `payload` inserted before IEND.
fn with_raw_payload(png: &[u8], payload: &str) -> Vec<u8> {
    let mut out = PNG_SIG.to_vec();
    for (t, d) in &parse_chunks(png).unwrap() {
        if t == b"IEND" {
            out.extend_from_slice(&encode_itxt(payload));
        }
        out.extend_from_slice(&encode_chunk(t, d));
    }
    out
}

fn json_object(fields: &[(&str, &str)]) -> String {
    let mut m = serde_json::Map::new();
    for (k, v) in fields {
        m.insert(k.to_string(), serde_json::Value::String(v.to_string()));
    }
    serde_json::Value::Object(m).to_string()
}

#[test]
fn test_embed_extract_roundtrip_real_png() {
    let png = minimal_png();
    let source = "graph TD; A --> B";
    let embedded = embed(&png, source).expect("embed should succeed");
    let extracted = extract(&embedded).expect("extract should succeed");
    assert_eq!(extracted.source, source);
}

#[test]
fn test_extract_not_found() {
    let png = minimal_png();
    let result = extract(&png);
    assert!(matches!(result, Err(MermaidError::NotFound)), "expected NotFound, got {result:?}");
}

#[test]
fn test_embed_preserves_other_chunks() {
    let png = minimal_png();
    let chunks_before = parse_chunks(&png).unwrap();
    let source = "sequenceDiagram; A->>B: Hello";
    let embedded = embed(&png, source).unwrap();
    let chunks_after = parse_chunks(&embedded).unwrap();
    let types_before: Vec<[u8; 4]> = chunks_before.iter().map(|(t, _)| *t).collect();
    let types_after: Vec<[u8; 4]> = chunks_after.iter().map(|(t, _)| *t).collect();
    for (i, t) in types_before.iter().enumerate() {
        assert!(types_after.contains(t), "chunk {i} ({}) missing after embed", std::str::from_utf8(t).unwrap_or("????"));
    }
    for (chunk_type, data) in &chunks_before {
        let after = chunks_after.iter().find(|(t, _)| t == chunk_type).expect("chunk should still be present");
        assert_eq!(after.1, *data, "chunk {} data changed", std::str::from_utf8(chunk_type).unwrap_or("????"));
    }
}

#[test]
fn test_sha256_integrity() {
    let png = minimal_png();
    let source = "pie title Pets\n  \"Dogs\" : 386\n  \"Cats\" : 85";
    let embedded = embed(&png, source).unwrap();
    let extracted = extract(&embedded).unwrap();
    let expected = sha256_hex(source);
    assert!(extracted.is_verified(), "roundtrip payload must verify");
    assert_eq!(extracted.sha256(), Some(expected.as_str()));
    assert_eq!(extracted.verification, VerificationStatus::Verified { algorithm: "sha256", digest: expected });
}

#[test]
fn tampered_digest_fails_verification() {
    let png = minimal_png();
    let source = "graph TD; A-->B";
    let embedded = embed(&png, source).unwrap();
    let stored = sha256_hex(source);
    let flipped_first = if stored.starts_with('0') { "1" } else { "0" };
    let bad_digest = format!("{flipped_first}{}", &stored[1..]);
    let tampered = tamper_itxt(&embedded, &stored, &bad_digest);
    match extract(&tampered) {
        Err(MermaidError::VerificationFailed { expected, actual, .. }) => {
            assert_eq!(expected, bad_digest);
            assert_eq!(actual, stored);
        }
        other => panic!("expected VerificationFailed, got {other:?}"),
    }
}

#[test]
fn payload_without_digest_is_no_digest_not_verified() {
    let png = minimal_png();
    let source = "graph TD; A-->B";
    let out = with_raw_payload(&png, &json_object(&[("source", source)]));
    let p = extract(&out).expect("no-digest payload still extracts");
    assert_eq!(p.source, source);
    assert_eq!(p.verification, VerificationStatus::NoDigest);
    assert!(!p.is_verified(), "no digest must never count as verified");
    assert_eq!(p.sha256(), None);
}

#[test]
fn extract_unverified_returns_raw_fields_even_when_tampered() {
    let png = minimal_png();
    let source = "graph TD; A-->B";
    let embedded = embed(&png, source).unwrap();
    let tampered = tamper_itxt(&embedded, "A-->B", "A-->X");
    assert!(matches!(extract(&tampered), Err(MermaidError::VerificationFailed { .. })));
    let raw = extract_unverified(&tampered).expect("raw extraction succeeds");
    assert_eq!(raw.source, "graph TD; A-->X");
    assert_eq!(raw.sha256, sha256_hex(source), "stored digest is the original (pre-tamper) one");
}

#[test]
fn test_invalid_signature() {
    let not_png = b"not a png at all";
    assert!(matches!(embed(not_png, "test"), Err(MermaidError::Png(_))), "embed should fail on non-PNG");
    assert!(matches!(extract(not_png), Err(MermaidError::Png(_))), "extract should fail on non-PNG");
}

#[test]
fn embed_mints_a_valid_v4_uuid() {
    let png = minimal_png();
    let p = extract(&embed(&png, "graph TD; A-->B").unwrap()).unwrap();
    assert!(!p.uuid.is_empty(), "embed should mint a uuid");
    let parsed = uuid::Uuid::parse_str(&p.uuid).expect("uuid should parse");
    assert_eq!(parsed.get_version(), Some(uuid::Version::Random));
}

#[test]
fn embed_uuids_are_unique_per_call() {
    let png = minimal_png();
    let a = extract(&embed(&png, "same source").unwrap()).unwrap().uuid;
    let b = extract(&embed(&png, "same source").unwrap()).unwrap().uuid;
    assert_ne!(a, b, "each embed mints a fresh uuid");
}

#[test]
fn embed_with_uuid_records_the_given_id() {
    let png = minimal_png();
    let embedded = embed_with_uuid(&png, "graph TD; A-->B", "fixed-test-id-123").unwrap();
    assert_eq!(extract(&embedded).unwrap().uuid, "fixed-test-id-123");
}

#[test]
fn extract_is_backward_compatible_without_uuid() {
    let png = minimal_png();
    let source = "graph TD; A-->B";
    let sha256 = sha256_hex(source);
    let out = with_raw_payload(&png, &json_object(&[("source", source), ("sha256", &sha256)]));
    let p = extract(&out).unwrap();
    assert_eq!(p.source, source);
    assert_eq!(p.uuid, "", "missing uuid must decode to empty string");
}

#[test]
fn re_embedding_replaces_the_payload() {
    let png = minimal_png();
    let once = embed_with_uuid(&png, "graph TD; A-->B", "u0").unwrap();
    let twice = embed_with_uuid(&once, "graph LR; C-->D", "u1").unwrap();
    let p = extract(&twice).unwrap();
    assert_eq!(p.source, "graph LR; C-->D");
    assert_eq!(p.uuid, "u1");
    assert!(p.is_verified());
    let itxt = parse_chunks(&twice).unwrap().into_iter().filter(|c| &c.0 == b"iTXt").count();
    assert_eq!(itxt, 1);
}

#[test]
fn png_without_iend_is_refused() {
    assert!(matches!(embed_with_uuid(PNG_SIG, "graph TD; A-->B", "u1"), Err(MermaidError::Png(_))));
}

#[test]
fn truncated_payload_chunk_is_a_png_error() {
    let png = b"\x89PNG\r\n\x1a\n\x00\x00\x00\x0fiTXtscrybe-mermaid\x00\x00\x00\x00\x00";
    assert!(payload_truncated(png));
    assert!(matches!(extract_unverified(png), Err(MermaidError::Png(_))));
    assert!(matches!(extract(png), Err(MermaidError::Png(_))));
}

#[test]
fn verify_payload_sorts_each_stored_digest() {
    use_verify_payload();
}

fn use_verify_payload() {
    let raw = |sha: &str| scrybe::codec::MermaidPayload { source: "A".to_string(), sha256: sha.to_string(), uuid: "u".to_string() };
    let p = scrybe::codec::verify_payload(raw("")).unwrap();
    assert_eq!(p.verification, VerificationStatus::NoDigest);
    let good = sha256_hex("A");
    let p = scrybe::codec::verify_payload(raw(&good)).unwrap();
    assert!(p.is_verified());
    assert_eq!(p.uuid, "u");
    match scrybe::codec::verify_payload(raw("00")) {
        Err(MermaidError::VerificationFailed { expected, actual, .. }) => {
            assert_eq!(expected, "00");
            assert_eq!(actual, good);
        }
        other => panic!("expected VerificationFailed, got {other:?}"),
    }
}

fn png_message(bytes: &[u8]) -> String {
    match extract(bytes) {
        Err(MermaidError::Png(m)) => m,
        other => panic!("expected a PNG error, got {other:?}"),
    }
}

#[test]
fn extract_passes_the_reading_error_through_with_its_message() {
    let sig = [0x89u8, b'P', b'N', b'G', 0x0d, 0x0a, 0x1a, 0x0a];
    assert_eq!(png_message(b"not a png"), "invalid PNG signature");
    let mut short = sig.to_vec();
    short.extend_from_slice(&[0, 0, 0]);
    assert_eq!(png_message(&short), "truncated chunk header");
    let mut long = sig.to_vec();
    long.extend_from_slice(&[0, 0, 0, 100, b'I', b'D', b'A', b'T', 0, 0, 0, 0]);
    assert_eq!(png_message(&long), "truncated chunk data");
    match extract_unverified(&long) {
        Err(MermaidError::Png(m)) => assert_eq!(m, "truncated chunk data"),
        other => panic!("expected a PNG error, got {other:?}"),
    }
}

#[test]
fn stamp_png_reports_the_minted_uuid_and_digest() {
    let st = stamp_png(&minimal_png(), "graph TD; A-->B").unwrap();
    assert_eq!(st.uuid.len(), 36);
    assert_eq!(st.sha256, source_sha256("graph TD; A-->B"));
    let got = extract(&st.bytes).unwrap();
    assert_eq!(got.source, "graph TD; A-->B");
    assert_eq!(got.uuid, st.uuid);
    assert!(matches!(stamp_png(b"nope", "x"), Err(MermaidError::Png(_))));
}
