//! Application and project settings: their defaults, how worker counts and
//! batch sizes follow the hardware, and what makes a configuration valid.

use vstd::prelude::*;
use crate::paths::{join, join_of};
use crate::text::{push_str, string_of};

verus! {

/// Where a project's data lives.
pub struct ProjectConfig {
    pub name: String,
    pub evidence_root: String,
    pub registry_db: String,
    pub intelligence_db: String,
}

/// Where the analysis model comes from.
#[derive(PartialEq, Eq, Structural)]
pub enum ModelSource {
    HuggingFace,
    Local,
}

impl Default for ModelSource {
    fn default() -> (r: ModelSource)
        ensures
            r == ModelSource::HuggingFace,
    {
        ModelSource::HuggingFace
    }
}

/// The analysis model.
pub struct ModelConfig {
    pub source: ModelSource,
    pub id: String,
    pub quantization: String,
    pub context_length: u32,
    pub downloaded: bool,
    pub local_path: String,
}

/// Batch settings of the processing pipeline.
pub struct ProcessingConfig {
    pub batch_size: u32,
    pub max_image_resolution: u32,
}

/// The worker and batch settings, each either fixed or following the
/// hardware.
pub struct ScalingConfig {
    pub cpu_workers: u32,
    pub auto_scale_workers: bool,
    pub batch_size: u32,
    pub auto_scale_batch: bool,
}

/// The outcome of checking a configuration.
pub struct ValidationResult {
    pub valid: bool,
    pub errors: Vec<String>,
}

/// The workers recommended for a machine: two threads fewer than it has,
/// at least one. The count is taken as a signed 32-bit number, as the
/// settings store it, so counts beyond that range give one.
pub open spec fn recommended_workers_for(cpu_threads: u32) -> u32 {
    if cpu_threads > 0x7fff_ffff || cpu_threads <= 3 { 1 } else { (cpu_threads - 2) as u32 }
}

/// Recommends a worker count for a machine with `cpu_threads` threads.
pub fn recommended_workers(cpu_threads: u32) -> (r: u32)
    requires
        cpu_threads != 0x8000_0000 && cpu_threads != 0x8000_0001,
    ensures
        r == recommended_workers_for(cpu_threads),
        r >= 1,
{
    if cpu_threads > 0x7fff_ffff || cpu_threads <= 3 {
        1
    } else {
        cpu_threads - 2
    }
}

/// One gibibyte.
pub const GIB: u64 = 1073741824;

/// The batch size recommended for a machine with the given memory in
/// bytes: 10 above 12 GiB, 6 above 6 GiB, 4 otherwise.
pub open spec fn recommended_batch_for(total_memory: u64) -> u32 {
    if total_memory > 12 * GIB { 10 } else if total_memory > 6 * GIB { 6 } else { 4 }
}

/// Recommends a batch size for a machine with `total_memory` bytes.
pub fn recommended_batch_size(total_memory: u64) -> (r: u32)
    ensures
        r == recommended_batch_for(total_memory),
{
    if total_memory > 12 * GIB {
        10
    } else if total_memory > 6 * GIB {
        6
    } else {
        4
    }
}

/// The worker count in effect: the recommendation when the setting
/// follows the hardware, the configured count otherwise.
pub open spec fn effective_workers_of(s: ScalingConfig, recommended: u32) -> u32 {
    if s.auto_scale_workers { recommended } else { s.cpu_workers }
}

/// The batch size in effect.
pub open spec fn effective_batch_of(s: ScalingConfig, recommended: u32) -> u32 {
    if s.auto_scale_batch { recommended } else { s.batch_size }
}

/// The settings with every setting that follows the hardware replaced by
/// its recommendation.
pub open spec fn auto_scaled(s: ScalingConfig, workers: u32, batch: u32) -> ScalingConfig {
    ScalingConfig {
        cpu_workers: effective_workers_of(s, workers),
        auto_scale_workers: s.auto_scale_workers,
        batch_size: effective_batch_of(s, batch),
        auto_scale_batch: s.auto_scale_batch,
    }
}

impl ScalingConfig {
    /// The worker count in effect.
    pub fn effective_workers(&self, recommended: u32) -> (r: u32)
        ensures
            r == effective_workers_of(*self, recommended),
    {
        if self.auto_scale_workers { recommended } else { self.cpu_workers }
    }

    /// The batch size in effect.
    pub fn effective_batch_size(&self, recommended: u32) -> (r: u32)
        ensures
            r == effective_batch_of(*self, recommended),
    {
        if self.auto_scale_batch { recommended } else { self.batch_size }
    }

    /// Replaces the settings that follow the hardware by its
    /// recommendations; fixed settings stay.
    pub fn apply_auto_scaling(&mut self, recommended_workers: u32, recommended_batch: u32)
        ensures
            *final(self) == auto_scaled(*old(self), recommended_workers, recommended_batch),
    {
        if self.auto_scale_workers {
            self.cpu_workers = recommended_workers;
        }
        if self.auto_scale_batch {
            self.batch_size = recommended_batch;
        }
    }
}

/// Once auto-scaling is applied, the settings in effect are the stored ones,
/// and applying it again with the same recommendations changes nothing.
pub proof fn law_auto_scaling_settles(s: ScalingConfig, workers: u32, batch: u32)
    ensures
        effective_workers_of(auto_scaled(s, workers, batch), workers) == auto_scaled(s, workers, batch).cpu_workers,
        effective_batch_of(auto_scaled(s, workers, batch), batch) == auto_scaled(s, workers, batch).batch_size,
        auto_scaled(auto_scaled(s, workers, batch), workers, batch) == auto_scaled(s, workers, batch),
        effective_workers_of(auto_scaled(s, workers, batch), workers) == effective_workers_of(s, workers),
        effective_batch_of(auto_scaled(s, workers, batch), batch) == effective_batch_of(s, batch),
{
}

/// The errors that a project configuration has: an evidence root must be
/// given and exist, and both database paths must be given.
pub open spec fn config_errors(p: ProjectConfig, evidence_root_exists: bool) -> Seq<Seq<char>> {
    let e0 = if p.evidence_root@.len() == 0 {
        seq!["Evidence root path is required"@]
    } else if !evidence_root_exists {
        seq!["Evidence root path does not exist: "@ + p.evidence_root@]
    } else {
        Seq::<Seq<char>>::empty()
    };
    let e1 = if p.registry_db@.len() == 0 { seq!["Registry database path is required"@] } else { Seq::<Seq<char>>::empty() };
    let e2 = if p.intelligence_db@.len() == 0 {
        seq!["Intelligence database path is required"@]
    } else {
        Seq::<Seq<char>>::empty()
    };
    e0 + e1 + e2
}

impl ProjectConfig {
    /// Checks the configuration, given whether the evidence root exists on
    /// disk (asked only when one is given).
    pub fn validate(&self, evidence_root_exists: bool) -> (r: ValidationResult)
        ensures
            crate::text::string_views(r.errors@) == config_errors(*self, evidence_root_exists),
            r.valid == (config_errors(*self, evidence_root_exists).len() == 0),
    {
        let mut errors: Vec<String> = Vec::new();
        if self.evidence_root.as_str().is_empty() {
            errors.push(String::from_str("Evidence root path is required"));
        } else if !evidence_root_exists {
            let mut out: Vec<char> = Vec::new();
            push_str(&mut out, "Evidence root path does not exist: ");
            push_str(&mut out, self.evidence_root.as_str());
            errors.push(string_of(out.as_slice()));
        }
        let ghost e0 = crate::text::string_views(errors@);
        if self.registry_db.as_str().is_empty() {
            errors.push(String::from_str("Registry database path is required"));
        }
        let ghost e1 = crate::text::string_views(errors@);
        if self.intelligence_db.as_str().is_empty() {
            errors.push(String::from_str("Intelligence database path is required"));
        }
        assert(crate::text::string_views(errors@) =~= config_errors(*self, evidence_root_exists));
        let valid = errors.len() == 0;
        ValidationResult { valid, errors }
    }
}

/// Who runs an investigation.
pub struct InvestigatorInfo {
    pub name: String,
    pub agency: String,
    pub case_number: String,
    pub notes: String,
}

impl Default for InvestigatorInfo {
    fn default() -> (r: InvestigatorInfo)
        ensures
            r.name@.len() == 0,
            r.agency@.len() == 0,
            r.case_number@.len() == 0,
            r.notes@.len() == 0,
    {
        InvestigatorInfo { name: String::new(), agency: String::new(), case_number: String::new(), notes: String::new() }
    }
}

/// The files and folders of a project.
pub struct ProjectPaths {
    pub evidence_root: String,
    pub registry_db: String,
    pub intelligence_db: String,
    pub export_dir: String,
    pub models_dir: String,
}

impl ProjectPaths {
    /// The default layout below the application's data folder `app_dir`;
    /// models go to `./models`.
    pub fn default_in(app_dir: &str) -> (r: ProjectPaths)
        ensures
            r.evidence_root@.len() == 0,
            r.registry_db@ == join_of(app_dir@, "registry.db"@),
            r.intelligence_db@ == join_of(app_dir@, "intelligence.db"@),
            r.export_dir@ == join_of(app_dir@, "exports"@),
            r.models_dir@ == join_of("."@, "models"@),
    {
        ProjectPaths {
            evidence_root: String::new(),
            registry_db: join(app_dir, "registry.db"),
            intelligence_db: join(app_dir, "intelligence.db"),
            export_dir: join(app_dir, "exports"),
            models_dir: join(".", "models"),
        }
    }
}

/// The model settings of a project file.
pub struct ProjectModel {
    pub source: String,
    pub model_id: String,
    pub quantization: String,
    pub context_length: u32,
    pub local_path: String,
}

impl Default for ProjectModel {
    fn default() -> (r: ProjectModel)
        ensures
            r.source@ == "huggingface"@,
            r.model_id@ == "Qwen/Qwen2.5-7B-Instruct-GGUF"@,
            r.quantization@ == "Q4_K_M"@,
            r.context_length == 16384,
            r.local_path@.len() == 0,
    {
        ProjectModel {
            source: String::from_str("huggingface"),
            model_id: String::from_str("Qwen/Qwen2.5-7B-Instruct-GGUF"),
            quantization: String::from_str("Q4_K_M"),
            context_length: 16384,
            local_path: String::new(),
        }
    }
}

/// The processing settings of a project file.
pub struct ProjectProcessing {
    pub batch_size: u32,
    pub max_image_resolution: u32,
    pub enable_ocr: bool,
    pub enable_audio: bool,
    pub enable_pdf_extraction: bool,
}

impl Default for ProjectProcessing {
    fn default() -> (r: ProjectProcessing)
        ensures
            r.batch_size == 24,
            r.max_image_resolution == 2048,
            r.enable_ocr && r.enable_audio && r.enable_pdf_extraction,
    {
        ProjectProcessing {
            batch_size: 24,
            max_image_resolution: 2048,
            enable_ocr: true,
            enable_audio: true,
            enable_pdf_extraction: true,
        }
    }
}

impl ProjectConfig {
    /// The default project below the application's data folder.
    pub fn default_in(app_dir: &str) -> (r: ProjectConfig)
        ensures
            r.name@ == "New Investigation"@,
            r.evidence_root@.len() == 0,
            r.registry_db@ == join_of(app_dir@, "registry.db"@),
            r.intelligence_db@ == join_of(app_dir@, "intelligence.db"@),
    {
        ProjectConfig {
            name: String::from_str("New Investigation"),
            evidence_root: String::new(),
            registry_db: join(app_dir, "registry.db"),
            intelligence_db: join(app_dir, "intelligence.db"),
        }
    }
}

impl ModelConfig {
    /// The default model, stored below the application's data folder.
    pub fn default_in(app_dir: &str) -> (r: ModelConfig)
        ensures
            r.source == ModelSource::HuggingFace,
            r.id@ == "Qwen/Qwen2.5-7B-Instruct-AWQ"@,
            r.quantization@ == "awq"@,
            r.context_length == 8192,
            !r.downloaded,
            r.local_path@ == join_of(app_dir@, "models"@),
    {
        ModelConfig {
            source: ModelSource::HuggingFace,
            id: String::from_str("Qwen/Qwen2.5-7B-Instruct-AWQ"),
            quantization: String::from_str("awq"),
            context_length: 8192,
            downloaded: false,
            local_path: join(app_dir, "models"),
        }
    }
}

impl Default for ProcessingConfig {
    fn default() -> (r: ProcessingConfig)
        ensures
            r.batch_size == 6,
            r.max_image_resolution == 2048,
    {
        ProcessingConfig { batch_size: 6, max_image_resolution: 2048 }
    }
}

impl ScalingConfig {
    /// The default scaling: both settings follow the hardware, starting
    /// from the recommended workers and a batch of six.
    pub fn default_for(recommended_workers: u32) -> (r: ScalingConfig)
        ensures
            r.cpu_workers == recommended_workers,
            r.auto_scale_workers,
            r.batch_size == 6,
            r.auto_scale_batch,
    {
        ScalingConfig { cpu_workers: recommended_workers, auto_scale_workers: true, batch_size: 6, auto_scale_batch: true }
    }
}


/// Initialising a project is skipped when a project of the same name is
/// already open.
pub fn project_already_initialized(current_name: &String, requested_name: &String, db_open: bool) -> (r: bool)
    ensures
        r == (current_name@ == requested_name@ && db_open),
{
    *current_name == *requested_name && db_open
}

} // verus!
