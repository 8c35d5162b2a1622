use gaia::model::{
    adjusted_sensitivity, parse_labels, parse_species_list, v1_metadata_shape,
    validate_model_header, ArtifactCheckError, SpeciesListCache,
};

#[test]
fn test_v1_metadata_normal() {
    let m = v1_metadata_shape(42_000_000, -72_000_000, 10);
    assert!(m.week_live);
    assert_eq!(m.m0, 1);
    assert_eq!(m.m1, 1);
    assert_eq!(m.m2, 1);
}

#[test]
fn test_v1_metadata_missing_location() {
    let m = v1_metadata_shape(-1_000_000, -1_000_000, 10);
    assert_eq!(m.m0, 0);
    assert_eq!(m.m1, 0);
    assert_eq!(m.m2, 1);
}

#[test]
fn test_v1_metadata_week_out_of_range() {
    let m = v1_metadata_shape(42_000_000, -72_000_000, 0);
    assert!(!m.week_live);
    assert_eq!(m.m2, 0);
    let m = v1_metadata_shape(42_000_000, -72_000_000, 49);
    assert!(!m.week_live);
    assert_eq!(m.m2, 0);
}

#[test]
fn test_validate_empty_file() {
    let header: Vec<u8> = Vec::new();
    let r = validate_model_header(&header, 0);
    assert!(matches!(r, Err(ArtifactCheckError::EmptyFile)));
}

#[test]
fn test_validate_too_small() {
    let header: Vec<u8> = b"hello".to_vec();
    let r = validate_model_header(&header, 5);
    assert!(matches!(r, Err(ArtifactCheckError::TooSmall)));
}

#[test]
fn test_validate_zip_file_rejected() {
    let mut header: Vec<u8> = vec![0x50, 0x4b, 0x03, 0x04];
    header.resize(32, 0);
    let r = validate_model_header(&header, 2048);
    assert!(matches!(r, Err(ArtifactCheckError::ZipMagic)));
}

#[test]
fn test_validate_html_rejected() {
    let mut header: Vec<u8> = b"<!DOCTYPE html><html>403 Forbidden</html>".to_vec();
    header.truncate(32);
    let r = validate_model_header(&header, 2048);
    assert!(matches!(r, Err(ArtifactCheckError::HtmlPage)));
}

#[test]
fn test_validate_bad_schema_id() {
    let mut header: Vec<u8> = vec![0; 32];
    header[0..4].copy_from_slice(&16u32.to_le_bytes());
    header[4..8].copy_from_slice(b"XXXX");
    let r = validate_model_header(&header, 2048);
    assert!(matches!(r, Err(ArtifactCheckError::BadSchemaId)));
}

#[test]
fn test_validate_truncated_root_offset() {
    let mut header: Vec<u8> = vec![0; 32];
    header[0..4].copy_from_slice(&999999u32.to_le_bytes());
    header[4..8].copy_from_slice(b"TFL3");
    let r = validate_model_header(&header, 2048);
    assert!(matches!(r, Err(ArtifactCheckError::RootOffsetPastEnd)));
}

#[test]
fn test_validate_good_file() {
    let mut header: Vec<u8> = vec![0; 32];
    header[0..4].copy_from_slice(&16u32.to_le_bytes());
    header[4..8].copy_from_slice(b"TFL3");
    assert!(validate_model_header(&header, 2048).is_ok());
}

#[test]
fn test_adjusted_sensitivity_mirrors_and_clamps() {
    assert_eq!(adjusted_sensitivity(1000), 1000);
    assert_eq!(adjusted_sensitivity(1250), 750);
    assert_eq!(adjusted_sensitivity(1500), 500);
    assert_eq!(adjusted_sensitivity(500), 1500);
    assert_eq!(adjusted_sensitivity(2000), 500);
    assert_eq!(adjusted_sensitivity(0), 1500);
}

#[test]
fn test_parse_labels_normalises() {
    let labels = parse_labels("Turdus merula_Eurasian Blackbird\nHuman_Human\nPlain line\n");
    assert_eq!(labels.len(), 3);
    assert_eq!(labels[0], "Turdus merula");
    assert_eq!(labels[1], "Human");
    assert_eq!(labels[2], "Plain line");
}

#[test]
fn test_parse_species_list_drops_blanks() {
    let list = parse_species_list("  Turdus merula_Blackbird  \n\n  \nCyanistes caeruleus\n");
    assert_eq!(list.len(), 2);
    assert_eq!(list[0], "Turdus merula");
    assert_eq!(list[1], "Cyanistes caeruleus");
}

#[test]
fn test_species_list_cache() {
    let mut cache = SpeciesListCache::new();
    assert!(cache.lookup(42, -72, 10).is_none());
    cache.store(42, -72, 10, vec![String::from("Turdus merula")]);
    let hit = cache.lookup(42, -72, 10).unwrap();
    assert_eq!(hit.len(), 1);
    assert!(cache.lookup(42, -72, 11).is_none());
}
