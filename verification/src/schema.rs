//! The tables and indexes that a project database is created with.

use vstd::prelude::*;

verus! {

/// One statement run when a database is opened.
#[derive(Clone, Copy, Debug)]
pub struct SchemaStep {
    pub name: &'static str,
    pub sql: &'static str,
}

/// The statement of the `intelligence` step.
pub const INTELLIGENCE_SQL: &'static str = "CREATE TABLE IF NOT EXISTS intelligence (
                id INTEGER PRIMARY KEY AUTOINCREMENT,
                fingerprint TEXT NOT NULL,
                filename TEXT NOT NULL,
                fact_summary TEXT NOT NULL,
                category TEXT,
                identified_crime TEXT,
                severity_score INTEGER NOT NULL DEFAULT 0,
                confidence REAL,
                quality_score REAL,
                source_quote TEXT,
                associated_date TEXT,
                is_deleted BOOLEAN DEFAULT FALSE,
                deleted_at DATETIME,
                verification_status TEXT DEFAULT 'unverified',
                review_notes TEXT,
                created_at DATETIME DEFAULT CURRENT_TIMESTAMP,
                updated_at DATETIME DEFAULT CURRENT_TIMESTAMP
            )";

/// The statement of the `idx_intelligence` step.
pub const IDX_INTELLIGENCE_SQL: &'static str = "CREATE INDEX IF NOT EXISTS idx_intelligence_fingerprint ON intelligence(fingerprint);
                  CREATE INDEX IF NOT EXISTS idx_intelligence_category ON intelligence(category);
                  CREATE INDEX IF NOT EXISTS idx_intelligence_deleted ON intelligence(is_deleted) WHERE is_deleted = FALSE;";

/// The statement of the `evidence_chains` step.
pub const EVIDENCE_CHAINS_SQL: &'static str = "CREATE TABLE IF NOT EXISTS evidence_chains (
                id INTEGER PRIMARY KEY AUTOINCREMENT,
                chain_name TEXT NOT NULL,
                chain_type TEXT NOT NULL,
                description TEXT,
                created_by TEXT,
                created_at DATETIME DEFAULT CURRENT_TIMESTAMP,
                updated_at DATETIME DEFAULT CURRENT_TIMESTAMP
            )";

/// The statement of the `chain_items` step.
pub const CHAIN_ITEMS_SQL: &'static str = "CREATE TABLE IF NOT EXISTS chain_items (
                id INTEGER PRIMARY KEY AUTOINCREMENT,
                chain_id INTEGER NOT NULL,
                intelligence_id INTEGER NOT NULL,
                relationship_type TEXT NOT NULL,
                relationship_strength REAL DEFAULT 1.0,
                notes TEXT,
                linked_by TEXT,
                linked_at DATETIME DEFAULT CURRENT_TIMESTAMP,
                FOREIGN KEY(chain_id) REFERENCES evidence_chains(id) ON DELETE CASCADE
            )";

/// The statement of the `idx_chain_items` step.
pub const IDX_CHAIN_ITEMS_SQL: &'static str = "CREATE INDEX IF NOT EXISTS idx_chain_items_chain ON chain_items(chain_id);
                  CREATE INDEX IF NOT EXISTS idx_chain_items_intel ON chain_items(intelligence_id);";

/// The statement of the `facet_presets` step.
pub const FACET_PRESETS_SQL: &'static str = "CREATE TABLE IF NOT EXISTS facet_presets (
                id INTEGER PRIMARY KEY AUTOINCREMENT,
                page TEXT NOT NULL,
                name TEXT NOT NULL,
                state_json TEXT NOT NULL,
                updated_at DATETIME NOT NULL DEFAULT CURRENT_TIMESTAMP
            )";

/// The statement of the `pipelines` step.
pub const PIPELINES_SQL: &'static str = "CREATE TABLE IF NOT EXISTS pipelines (
                id TEXT PRIMARY KEY,
                name TEXT NOT NULL,
                description TEXT,
                passes_json TEXT NOT NULL,
                is_builtin BOOLEAN DEFAULT FALSE,
                created_at DATETIME DEFAULT CURRENT_TIMESTAMP,
                modified_at DATETIME
            )";

/// The statement of the `entities` step.
pub const ENTITIES_SQL: &'static str = "CREATE TABLE IF NOT EXISTS entities (
                id INTEGER PRIMARY KEY AUTOINCREMENT,
                intelligence_id INTEGER,
                fingerprint TEXT NOT NULL,
                entity_type TEXT NOT NULL,
                value TEXT NOT NULL,
                normalized_value TEXT,
                confidence REAL,
                position_start INTEGER,
                position_end INTEGER,
                created_at DATETIME DEFAULT CURRENT_TIMESTAMP
            )";

/// The statement of the `entity_aliases` step.
pub const ENTITY_ALIASES_SQL: &'static str = "CREATE TABLE IF NOT EXISTS entity_aliases (
                id INTEGER PRIMARY KEY AUTOINCREMENT,
                canonical_entity_id INTEGER NOT NULL,
                alias_value TEXT NOT NULL,
                confidence REAL DEFAULT 1.0,
                is_manual BOOLEAN DEFAULT FALSE,
                created_at DATETIME DEFAULT CURRENT_TIMESTAMP
            )";

/// The statement of the `registry` step.
pub const REGISTRY_SQL: &'static str = "CREATE TABLE IF NOT EXISTS registry (
                id INTEGER PRIMARY KEY AUTOINCREMENT,
                fingerprint TEXT NOT NULL UNIQUE,
                path TEXT NOT NULL,
                file_size INTEGER,
                file_type TEXT,
                file_name TEXT,
                last_modified DATETIME,
                has_extracted_text BOOLEAN DEFAULT FALSE,
                extracted_at DATETIME,
                processed BOOLEAN DEFAULT FALSE,
                processing_priority INTEGER DEFAULT 0,
                retry_count INTEGER DEFAULT 0,
                extraction_quality REAL,
                created_at DATETIME DEFAULT CURRENT_TIMESTAMP
            )";

/// The statement of the `text_cache` step.
pub const TEXT_CACHE_SQL: &'static str = "CREATE TABLE IF NOT EXISTS text_cache (
                fingerprint TEXT PRIMARY KEY,
                file_name TEXT NOT NULL,
                extracted_text TEXT,
                text_hash TEXT,
                extraction_time_ms INTEGER,
                quality_score REAL,
                created_at DATETIME DEFAULT CURRENT_TIMESTAMP,
                updated_at DATETIME DEFAULT CURRENT_TIMESTAMP
            )";

/// The statement of the `file_metadata_cache` step.
pub const FILE_METADATA_CACHE_SQL: &'static str = "CREATE TABLE IF NOT EXISTS file_metadata_cache (
                fingerprint TEXT PRIMARY KEY,
                metadata_json TEXT NOT NULL,
                created_at DATETIME DEFAULT CURRENT_TIMESTAMP
            )";

/// The statement of the `fact_validations` step.
pub const FACT_VALIDATIONS_SQL: &'static str = "CREATE TABLE IF NOT EXISTS fact_validations (
                id INTEGER PRIMARY KEY AUTOINCREMENT,
                intelligence_id INTEGER NOT NULL,
                validation_type TEXT NOT NULL,
                is_valid BOOLEAN,
                details TEXT,
                checked_at DATETIME DEFAULT CURRENT_TIMESTAMP
            )";

/// The statement of the `evidence_weights` step.
pub const EVIDENCE_WEIGHTS_SQL: &'static str = "CREATE TABLE IF NOT EXISTS evidence_weights (
                id INTEGER PRIMARY KEY AUTOINCREMENT,
                intelligence_id INTEGER NOT NULL,
                weight_type TEXT NOT NULL DEFAULT 'primary',
                reliability_score REAL DEFAULT 1.0,
                custom_weight REAL,
                weighted_confidence REAL,
                created_at DATETIME DEFAULT CURRENT_TIMESTAMP,
                updated_at DATETIME
            )";

/// The statement of the `audit_log` step.
pub const AUDIT_LOG_SQL: &'static str = "CREATE TABLE IF NOT EXISTS audit_log (
                id INTEGER PRIMARY KEY AUTOINCREMENT,
                timestamp DATETIME DEFAULT CURRENT_TIMESTAMP,
                user_name TEXT,
                action TEXT NOT NULL,
                target_type TEXT,
                target_id TEXT,
                details_json TEXT,
                ip_address TEXT,
                session_id TEXT
            )";

/// The statements that create the project schema, in the order they run.
pub fn get_migrations() -> (r: Vec<SchemaStep>)
    ensures
        r@.len() == 15,
        r@[0].name@ == "intelligence"@,
        r@[0].sql@ == INTELLIGENCE_SQL@,
        r@[1].name@ == "idx_intelligence"@,
        r@[1].sql@ == IDX_INTELLIGENCE_SQL@,
        r@[2].name@ == "evidence_chains"@,
        r@[2].sql@ == EVIDENCE_CHAINS_SQL@,
        r@[3].name@ == "chain_items"@,
        r@[3].sql@ == CHAIN_ITEMS_SQL@,
        r@[4].name@ == "idx_chain_items"@,
        r@[4].sql@ == IDX_CHAIN_ITEMS_SQL@,
        r@[5].name@ == "facet_presets"@,
        r@[5].sql@ == FACET_PRESETS_SQL@,
        r@[6].name@ == "pipelines"@,
        r@[6].sql@ == PIPELINES_SQL@,
        r@[7].name@ == "entities"@,
        r@[7].sql@ == ENTITIES_SQL@,
        r@[8].name@ == "entity_aliases"@,
        r@[8].sql@ == ENTITY_ALIASES_SQL@,
        r@[9].name@ == "registry"@,
        r@[9].sql@ == REGISTRY_SQL@,
        r@[10].name@ == "text_cache"@,
        r@[10].sql@ == TEXT_CACHE_SQL@,
        r@[11].name@ == "file_metadata_cache"@,
        r@[11].sql@ == FILE_METADATA_CACHE_SQL@,
        r@[12].name@ == "fact_validations"@,
        r@[12].sql@ == FACT_VALIDATIONS_SQL@,
        r@[13].name@ == "evidence_weights"@,
        r@[13].sql@ == EVIDENCE_WEIGHTS_SQL@,
        r@[14].name@ == "audit_log"@,
        r@[14].sql@ == AUDIT_LOG_SQL@,
{
    let mut r: Vec<SchemaStep> = Vec::new();
    r.push(SchemaStep { name: "intelligence", sql: INTELLIGENCE_SQL });
    r.push(SchemaStep { name: "idx_intelligence", sql: IDX_INTELLIGENCE_SQL });
    r.push(SchemaStep { name: "evidence_chains", sql: EVIDENCE_CHAINS_SQL });
    r.push(SchemaStep { name: "chain_items", sql: CHAIN_ITEMS_SQL });
    r.push(SchemaStep { name: "idx_chain_items", sql: IDX_CHAIN_ITEMS_SQL });
    r.push(SchemaStep { name: "facet_presets", sql: FACET_PRESETS_SQL });
    r.push(SchemaStep { name: "pipelines", sql: PIPELINES_SQL });
    r.push(SchemaStep { name: "entities", sql: ENTITIES_SQL });
    r.push(SchemaStep { name: "entity_aliases", sql: ENTITY_ALIASES_SQL });
    r.push(SchemaStep { name: "registry", sql: REGISTRY_SQL });
    r.push(SchemaStep { name: "text_cache", sql: TEXT_CACHE_SQL });
    r.push(SchemaStep { name: "file_metadata_cache", sql: FILE_METADATA_CACHE_SQL });
    r.push(SchemaStep { name: "fact_validations", sql: FACT_VALIDATIONS_SQL });
    r.push(SchemaStep { name: "evidence_weights", sql: EVIDENCE_WEIGHTS_SQL });
    r.push(SchemaStep { name: "audit_log", sql: AUDIT_LOG_SQL });
    r
}

} // verus!
