use gaia::manifest::{
    default_l18n, default_true, default_variant, DownloadSection, LanguageSection, Manifest,
    MetadataSection, ModelSection, ResolvedManifest, VariantInfo,
};

fn base_manifest() -> Manifest {
    Manifest {
        model: ModelSection {
            name: String::from("Test"),
            domain: String::from("test"),
            sample_rate: 48000,
            chunk_duration_ms: 3000,
            tflite_file: String::from("default.tflite"),
            labels_file: String::from("labels.txt"),
            onnx_file: None,
            v1_metadata: false,
            apply_softmax: false,
        },
        metadata_model: None,
        language: None,
        download: Some(DownloadSection {
            zenodo_record_id: String::from("12345"),
            default_variant: String::from("fp16"),
            variants: vec![
                (
                    String::from("fp32"),
                    VariantInfo {
                        zenodo_file: String::from("test.zip"),
                        md5: None,
                        tflite_file: Some(String::from("big_model.tflite")),
                        labels_file: Some(String::from("big_labels.txt")),
                        metadata_tflite_file: None,
                    },
                ),
                (
                    String::from("int8"),
                    VariantInfo {
                        zenodo_file: String::from("test_int8.zip"),
                        md5: None,
                        tflite_file: Some(String::from("small_model.tflite")),
                        labels_file: None,
                        metadata_tflite_file: None,
                    },
                ),
            ],
        }),
    }
}

#[test]
fn test_apply_variant_overrides() {
    let mut resolved = ResolvedManifest {
        manifest: base_manifest(),
        base_dir: String::from("/tmp/models/test"),
    };

    resolved.apply_variant("fp32").unwrap();
    assert_eq!(resolved.manifest.model.tflite_file, "big_model.tflite");
    assert_eq!(resolved.manifest.model.labels_file, "big_labels.txt");

    // Reset and apply the other variant.
    resolved.manifest.model.tflite_file = String::from("default.tflite");
    resolved.manifest.model.labels_file = String::from("labels.txt");
    resolved.apply_variant("int8").unwrap();
    assert_eq!(resolved.manifest.model.tflite_file, "small_model.tflite");
    // labels_file not overridden by this variant.
    assert_eq!(resolved.manifest.model.labels_file, "labels.txt");
}

#[test]
fn test_apply_variant_idempotent() {
    let mut once = ResolvedManifest {
        manifest: base_manifest(),
        base_dir: String::from("/tmp"),
    };
    once.apply_variant("fp32").unwrap();
    let mut twice = ResolvedManifest {
        manifest: base_manifest(),
        base_dir: String::from("/tmp"),
    };
    twice.apply_variant("fp32").unwrap();
    twice.apply_variant("fp32").unwrap();
    assert_eq!(once.manifest.model.tflite_file, twice.manifest.model.tflite_file);
    assert_eq!(once.manifest.model.labels_file, twice.manifest.model.labels_file);
}

#[test]
fn test_apply_unknown_variant_fails() {
    let mut resolved = ResolvedManifest {
        manifest: base_manifest(),
        base_dir: String::from("/tmp"),
    };
    assert!(resolved.apply_variant("fp64").is_err());
    // Nothing changed.
    assert_eq!(resolved.manifest.model.tflite_file, "default.tflite");
}

#[test]
fn test_effective_variant() {
    let resolved = ResolvedManifest {
        manifest: base_manifest(),
        base_dir: String::from("/tmp"),
    };
    // No user choice: the declared default.
    assert_eq!(resolved.effective_variant(None).unwrap(), "fp16");
    // User choice wins.
    assert_eq!(resolved.effective_variant(Some("int8")).unwrap(), "int8");

    // No download section: no variant at all.
    let mut no_dl = ResolvedManifest {
        manifest: base_manifest(),
        base_dir: String::from("/tmp"),
    };
    no_dl.manifest.download = None;
    assert!(no_dl.effective_variant(Some("int8")).is_none());
    // And applying a variant is then a no-op.
    assert!(no_dl.apply_variant("anything").is_ok());
}

#[test]
fn test_manifest_paths() {
    let mut resolved = ResolvedManifest {
        manifest: base_manifest(),
        base_dir: String::from("/models/test"),
    };
    assert_eq!(resolved.tflite_path(), "/models/test/default.tflite");
    assert_eq!(resolved.labels_path(), "/models/test/labels.txt");
    assert_eq!(resolved.language_dir(), "/models/test/l18n");
    assert_eq!(resolved.domain(), "test");
    assert!(resolved.metadata_tflite_path().is_none());

    resolved.manifest.metadata_model = Some(MetadataSection {
        enabled: true,
        tflite_file: String::from("meta.tflite"),
    });
    assert_eq!(resolved.metadata_tflite_path().unwrap(), "/models/test/meta.tflite");
    resolved.manifest.language = Some(LanguageSection { dir: String::from("lang") });
    assert_eq!(resolved.language_dir(), "/models/test/lang");
}

#[test]
fn test_manifest_defaults() {
    assert_eq!(default_variant(), "fp16");
    assert!(default_true());
    assert_eq!(default_l18n(), "l18n");
}
