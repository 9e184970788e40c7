use sl_studio::config::project_already_initialized;
use sl_studio::config::{
    recommended_batch_size, recommended_workers, InvestigatorInfo, ModelConfig, ModelSource, ProcessingConfig,
    ProjectConfig, ProjectModel, ProjectPaths, ProjectProcessing, ScalingConfig, GIB,
};

#[test]
fn worker_recommendation() {
    assert_eq!(recommended_workers(8), 6);
    assert_eq!(recommended_workers(4), 2);
    assert_eq!(recommended_workers(3), 1);
    assert_eq!(recommended_workers(0), 1);
    assert_eq!(recommended_workers(0x8000_0002), 1);
}

#[test]
fn batch_recommendation() {
    assert_eq!(recommended_batch_size(16 * GIB), 10);
    assert_eq!(recommended_batch_size(12 * GIB), 6);
    assert_eq!(recommended_batch_size(8 * GIB), 6);
    assert_eq!(recommended_batch_size(6 * GIB), 4);
}

#[test]
fn scaling_follows_hardware_when_asked() {
    let mut s = ScalingConfig { cpu_workers: 2, auto_scale_workers: true, batch_size: 3, auto_scale_batch: false };
    assert_eq!(s.effective_workers(6), 6);
    assert_eq!(s.effective_batch_size(10), 3);
    s.apply_auto_scaling(6, 10);
    assert_eq!((s.cpu_workers, s.batch_size), (6, 3));
    assert_eq!(s.effective_workers(6), s.cpu_workers);
    assert_eq!(s.effective_batch_size(10), s.batch_size);
    let d = ScalingConfig::default_for(5);
    assert_eq!((d.cpu_workers, d.auto_scale_workers, d.batch_size, d.auto_scale_batch), (5, true, 6, true));
}

fn project(root: &str, reg: &str, intel: &str) -> ProjectConfig {
    ProjectConfig {
        name: "p".to_string(),
        evidence_root: root.to_string(),
        registry_db: reg.to_string(),
        intelligence_db: intel.to_string(),
    }
}

#[test]
fn validation_lists_every_problem() {
    let r = project("", "", "").validate(false);
    assert!(!r.valid);
    assert_eq!(
        r.errors,
        vec![
            "Evidence root path is required",
            "Registry database path is required",
            "Intelligence database path is required"
        ]
    );
    let r = project("/ev", "r.db", "i.db").validate(false);
    assert_eq!(r.errors, vec!["Evidence root path does not exist: /ev"]);
    let r = project("/ev", "r.db", "i.db").validate(true);
    assert!(r.valid);
    assert!(r.errors.is_empty());
}

#[test]
fn defaults() {
    assert!(ModelSource::default() == ModelSource::HuggingFace);
    let m = ProjectModel::default();
    assert_eq!((m.source.as_str(), m.model_id.as_str(), m.quantization.as_str(), m.context_length), ("huggingface", "Qwen/Qwen2.5-7B-Instruct-GGUF", "Q4_K_M", 16384));
    let p = ProjectProcessing::default();
    assert_eq!((p.batch_size, p.max_image_resolution, p.enable_ocr), (24, 2048, true));
    let i = InvestigatorInfo::default();
    assert!(i.name.is_empty() && i.notes.is_empty());
    let paths = ProjectPaths::default_in("/data/slstudio");
    assert_eq!(paths.registry_db, "/data/slstudio/registry.db");
    assert_eq!(paths.export_dir, "/data/slstudio/exports");
    assert_eq!(paths.models_dir, "./models");
    let c = ProjectConfig::default_in("/data/slstudio");
    assert_eq!((c.name.as_str(), c.intelligence_db.as_str()), ("New Investigation", "/data/slstudio/intelligence.db"));
    let mc = ModelConfig::default_in("/data/slstudio");
    assert_eq!((mc.id.as_str(), mc.local_path.as_str(), mc.context_length), ("Qwen/Qwen2.5-7B-Instruct-AWQ", "/data/slstudio/models", 8192));
    let pc = ProcessingConfig::default();
    assert_eq!((pc.batch_size, pc.max_image_resolution), (6, 2048));
}

#[test]
fn reinitialising_the_open_project_is_skipped() {
    let a = "Case A".to_string();
    assert!(project_already_initialized(&a, &"Case A".to_string(), true));
    assert!(!project_already_initialized(&a, &"Case A".to_string(), false));
    assert!(!project_already_initialized(&a, &"Case B".to_string(), true));
}
