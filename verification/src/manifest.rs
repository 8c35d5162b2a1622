//! Model manifests: the immutable description of one classifier, and
//! the variant-override mechanism.
//!
//! A manifest names the model, its domain, target sample rate and
//! chunk duration, the artifact and label files, and optionally a
//! metadata (occurrence-gate) model, a language directory, and a
//! remote-source block with per-variant overrides. Reading the
//! manifest file from disk happens outside the library; the selection
//! and overlay rules are here.

use vstd::prelude::*;

verus! {

/// The `[model]` block.
pub struct ModelSection {
    pub name: String,
    pub domain: String,
    pub sample_rate: u32,
    /// Chunk duration in milliseconds.
    pub chunk_duration_ms: u32,
    pub tflite_file: String,
    pub labels_file: String,
    /// Optional classifier-only interchange-format artifact; when it
    /// exists on disk it is preferred, and the model then takes the
    /// mel-spectrogram tensor instead of raw audio.
    pub onnx_file: Option<String>,
    /// The classifier takes the V1 side-channel metadata tensor.
    pub v1_metadata: bool,
    /// Apply softmax to raw logits instead of the sigmoid transform.
    pub apply_softmax: bool,
}

/// The `[metadata_model]` block: the optional occurrence-gate model.
pub struct MetadataSection {
    pub enabled: bool,
    pub tflite_file: String,
}

/// The `[language]` block.
pub struct LanguageSection {
    /// Subdirectory holding per-language label maps.
    pub dir: String,
}

/// One remote variant of the model artifacts.
pub struct VariantInfo {
    /// Archive filename under the remote record.
    pub zenodo_file: String,
    /// Expected hex digest of the archive, when declared.
    pub md5: Option<String>,
    /// Override for the classifier artifact filename.
    pub tflite_file: Option<String>,
    /// Override for the label file.
    pub labels_file: Option<String>,
    /// Override for the occurrence-gate artifact filename.
    pub metadata_tflite_file: Option<String>,
}

/// The `[download]` block: remote-source coordinates.
pub struct DownloadSection {
    pub zenodo_record_id: String,
    pub default_variant: String,
    /// Variant name to download info.
    pub variants: Vec<(String, VariantInfo)>,
}

/// A whole manifest.
pub struct Manifest {
    pub model: ModelSection,
    pub metadata_model: Option<MetadataSection>,
    pub language: Option<LanguageSection>,
    pub download: Option<DownloadSection>,
}

/// Default variant name when a `[download]` block declares none.
pub fn default_variant() -> (r: String)
    ensures
        r@ == "fp16"@,
{
    String::from_str("fp16")
}

/// Default for the `enabled` flag of a `[metadata_model]` block.
pub fn default_true() -> (r: bool)
    ensures
        r,
{
    true
}

/// Default language subdirectory.
pub fn default_l18n() -> (r: String)
    ensures
        r@ == "l18n"@,
{
    String::from_str("l18n")
}

/// The first variant whose name matches, scanning in declaration
/// order.
pub open spec fn variant_get(vs: Seq<(String, VariantInfo)>, name: Seq<char>) -> Option<
    VariantInfo,
>
    decreases vs.len(),
{
    if vs.len() == 0 {
        None
    } else if vs.first().0@ == name {
        Some(vs.first().1)
    } else {
        variant_get(vs.drop_first(), name)
    }
}

/// A manifest with the overrides of one variant laid over it: filename
/// fields are replaced where the variant declares them, everything
/// else is untouched.
pub open spec fn overlay(m: Manifest, v: VariantInfo) -> Manifest {
    Manifest {
        model: ModelSection {
            tflite_file: match v.tflite_file {
                Some(f) => f,
                None => m.model.tflite_file,
            },
            labels_file: match v.labels_file {
                Some(f) => f,
                None => m.model.labels_file,
            },
            ..m.model
        },
        metadata_model: match m.metadata_model {
            Some(meta) => Some(
                MetadataSection {
                    tflite_file: match v.metadata_tflite_file {
                        Some(f) => f,
                        None => meta.tflite_file,
                    },
                    ..meta
                },
            ),
            None => None,
        },
        ..m
    }
}

/// The result of applying a named variant: the overlay when the
/// manifest has a remote-source block that declares the name, the
/// manifest unchanged otherwise.
pub open spec fn applied(m: Manifest, name: Seq<char>) -> Manifest {
    match m.download {
        Some(d) => match variant_get(d.variants@, name) {
            Some(v) => overlay(m, v),
            None => m,
        },
        None => m,
    }
}

/// Variant law: applying the same variant twice yields the manifest
/// that applying it once yields.
pub proof fn lemma_apply_variant_idempotent(m: Manifest, name: Seq<char>)
    ensures
        applied(applied(m, name), name) == applied(m, name),
{
    match m.download {
        Some(d) => {
            match variant_get(d.variants@, name) {
                Some(v) => {
                    let m1 = overlay(m, v);
                    assert(m1.download == m.download);
                    assert(applied(m1, name) == overlay(m1, v));
                    assert(overlay(m1, v) == m1);
                }
                None => {
                }
            }
        }
        None => {
        }
    }
}

/// A manifest anchored to the directory its file was found in.
pub struct ResolvedManifest {
    pub manifest: Manifest,
    /// Directory holding the manifest and model files.
    pub base_dir: String,
}

/// Why a variant could not be applied.
#[derive(Clone, Copy, PartialEq, Eq, Structural, Debug)]
pub enum VariantError {
    /// The `[download]` block declares no variant of that name.
    UnknownVariant,
}

impl ResolvedManifest {
    /// `<base_dir>/<file>`.
    pub fn path_of(&self, file: &str) -> (r: String)
        ensures
            r@ == self.base_dir@ + "/"@ + file@,
    {
        let mut out = self.base_dir.clone();
        out.append("/");
        out.append(file);
        out
    }

    /// Path of the classifier artifact.
    pub fn tflite_path(&self) -> (r: String)
        ensures
            r@ == self.base_dir@ + "/"@ + self.manifest.model.tflite_file@,
    {
        let f = self.manifest.model.tflite_file.clone();
        self.path_of(f.as_str())
    }

    /// Path of the preprocessed-classifier artifact, when declared.
    pub fn onnx_path(&self) -> (r: Option<String>)
        ensures
            match r {
                Some(p) => {
                    &&& self.manifest.model.onnx_file matches Some(f)
                    &&& p@ == self.base_dir@ + "/"@ + f@
                },
                None => self.manifest.model.onnx_file is None,
            },
    {
        match &self.manifest.model.onnx_file {
            Some(f) => {
                let f = f.clone();
                Some(self.path_of(f.as_str()))
            }
            None => None,
        }
    }

    /// Path of the label file.
    pub fn labels_path(&self) -> (r: String)
        ensures
            r@ == self.base_dir@ + "/"@ + self.manifest.model.labels_file@,
    {
        let f = self.manifest.model.labels_file.clone();
        self.path_of(f.as_str())
    }

    /// Path of the enabled occurrence-gate artifact, if any.
    pub fn metadata_tflite_path(&self) -> (r: Option<String>)
        ensures
            match r {
                Some(p) => {
                    &&& self.manifest.metadata_model matches Some(meta)
                    &&& meta.enabled
                    &&& p@ == self.base_dir@ + "/"@ + meta.tflite_file@
                },
                None => match self.manifest.metadata_model {
                    Some(meta) => !meta.enabled,
                    None => true,
                },
            },
    {
        match &self.manifest.metadata_model {
            Some(meta) => {
                if meta.enabled {
                    let f = meta.tflite_file.clone();
                    Some(self.path_of(f.as_str()))
                } else {
                    None
                }
            }
            None => None,
        }
    }

    /// Path of the language-map directory.
    pub fn language_dir(&self) -> (r: String)
        ensures
            r@ == self.base_dir@ + "/"@ + (match self.manifest.language {
                Some(l) => l.dir@,
                None => "l18n"@,
            }),
    {
        match &self.manifest.language {
            Some(l) => {
                let d = l.dir.clone();
                self.path_of(d.as_str())
            }
            None => self.path_of("l18n"),
        }
    }

    /// The model's domain tag.
    pub fn domain(&self) -> (r: &str)
        ensures
            r@ == self.manifest.model.domain@,
    {
        self.manifest.model.domain.as_str()
    }

    /// Look up a variant by name.
    fn find_variant(vs: &Vec<(String, VariantInfo)>, name: &str) -> (r: Option<usize>)
        ensures
            r matches Some(i) ==> i < vs@.len()
                && variant_get(vs@, name@) == Some(vs@[i as int].1),
            r is None ==> variant_get(vs@, name@) is None,
    {
        let n = vs.len();
        let mut i: usize = 0;
        proof {
            assert(vs@.skip(0) =~= vs@);
        }
        while i < n
            invariant
                0 <= i <= n,
                n == vs@.len(),
                variant_get(vs@, name@) == variant_get(vs@.skip(i as int), name@),
            decreases n - i,
        {
            proof {
                assert(vs@.skip(i as int).first() == vs@[i as int]);
                assert(vs@.skip(i as int).drop_first() =~= vs@.skip(i + 1));
            }
            if crate::text::str_eq(vs[i].0.as_str(), name) {
                return Some(i);
            }
            i = i + 1;
        }
        proof {
            assert(vs@.skip(n as int) =~= Seq::<(String, VariantInfo)>::empty());
        }
        None
    }

    /// Apply a named variant's overrides to the filename fields.
    ///
    /// A manifest without a remote-source block is returned unchanged;
    /// naming an undeclared variant fails and changes nothing.
    pub fn apply_variant(&mut self, variant_name: &str) -> (r: Result<(), VariantError>)
        ensures
            final(self).base_dir == old(self).base_dir,
            r is Ok ==> final(self).manifest == applied(old(self).manifest, variant_name@),
            r is Err ==> *final(self) == *old(self),
            r is Ok <==> (old(self).manifest.download is None || variant_get(
                old(self).manifest.download.unwrap().variants@,
                variant_name@,
            ) is Some),
    {
        let found: Option<VariantInfo> = match &self.manifest.download {
            Some(d) => {
                match Self::find_variant(&d.variants, variant_name) {
                    Some(i) => {
                        let v = &d.variants[i].1;
                        Some(
                            VariantInfo {
                                zenodo_file: v.zenodo_file.clone(),
                                md5: clone_opt(&v.md5),
                                tflite_file: clone_opt(&v.tflite_file),
                                labels_file: clone_opt(&v.labels_file),
                                metadata_tflite_file: clone_opt(&v.metadata_tflite_file),
                            },
                        )
                    }
                    None => {
                        return Err(VariantError::UnknownVariant);
                    }
                }
            }
            None => {
                return Ok(());
            }
        };
        let v = match found {
            Some(v) => v,
            None => {
                return Ok(());
            }
        };
        let ghost gv = variant_get(
            old(self).manifest.download.unwrap().variants@,
            variant_name@,
        ).unwrap();
        proof {
            assert(v.tflite_file == gv.tflite_file);
            assert(v.labels_file == gv.labels_file);
            assert(v.metadata_tflite_file == gv.metadata_tflite_file);
        }
        match v.tflite_file {
            Some(f) => {
                self.manifest.model.tflite_file = f;
            }
            None => {
            }
        }
        match v.labels_file {
            Some(f) => {
                self.manifest.model.labels_file = f;
            }
            None => {
            }
        }
        match v.metadata_tflite_file {
            Some(f) => {
                match &mut self.manifest.metadata_model {
                    Some(meta) => {
                        meta.tflite_file = f;
                    }
                    None => {
                    }
                }
            }
            None => {
            }
        }
        proof {
            assert(self.manifest == applied(old(self).manifest, variant_name@));
        }
        Ok(())
    }

    /// The variant to fetch: the user's choice when set, else the
    /// declared default; absent when the manifest has no remote-source
    /// block.
    pub fn effective_variant(&self, config_variant: Option<&str>) -> (r: Option<String>)
        ensures
            match self.manifest.download {
                Some(d) => r matches Some(v) && v@ == (match config_variant {
                    Some(c) => c@,
                    None => d.default_variant@,
                }),
                None => r is None,
            },
    {
        match &self.manifest.download {
            Some(d) => match config_variant {
                Some(c) => Some(String::from_str(c)),
                None => Some(d.default_variant.clone()),
            },
            None => None,
        }
    }
}

/// Clone an optional string.
fn clone_opt(o: &Option<String>) -> (r: Option<String>)
    ensures
        r == *o,
{
    match o {
        Some(s) => Some(s.clone()),
        None => None,
    }
}

} // verus!
