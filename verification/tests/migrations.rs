use task_graph::migrations::{
    build_default_registry, check_schema_compatibility, validate_import_schema, MigrationError,
    MigrationRegistry, MigrationReport, MigrationStep, SchemaCompatibility,
};

#[test]
fn test_register_migration() {
    let registry = MigrationRegistry::new().register(1, 2, "Test migration");
    assert!(registry.has_direct_migration(1, 2));
    assert!(!registry.has_direct_migration(2, 3));
}

#[test]
fn test_find_direct_path() {
    let registry = MigrationRegistry::new().register(1, 2, "v1 to v2");
    let path = registry.find_path(1, 2).unwrap();
    assert_eq!(path, vec![(1, 2)]);
}

#[test]
fn test_find_chained_path() {
    let registry = MigrationRegistry::new()
        .register(1, 2, "v1 to v2")
        .register(2, 3, "v2 to v3")
        .register(3, 4, "v3 to v4");
    let path = registry.find_path(1, 4).unwrap();
    assert_eq!(path, vec![(1, 2), (2, 3), (3, 4)]);
}

#[test]
fn test_find_shortest_path() {
    let registry = MigrationRegistry::new()
        .register(1, 2, "v1 to v2")
        .register(2, 3, "v2 to v3")
        .register(2, 4, "v2 to v4 (direct)")
        .register(3, 4, "v3 to v4");
    let path = registry.find_path(1, 4).unwrap();
    assert_eq!(path, vec![(1, 2), (2, 4)]);
}

#[test]
fn test_no_path() {
    let registry = MigrationRegistry::new()
        .register(1, 2, "v1 to v2")
        .register(3, 4, "v3 to v4");
    let result = registry.find_path(1, 4);
    assert!(matches!(result, Err(MigrationError::NoPath { .. })));
}

#[test]
fn test_no_path_error_message() {
    let registry = MigrationRegistry::new()
        .register(2, 3, "v2 to v3")
        .register(3, 4, "v3 to v4");
    let result = registry.find_path(1, 4);
    match result {
        Err(MigrationError::NoPath { from, to, available }) => {
            assert_eq!(from, 1);
            assert_eq!(to, 4);
            assert!(available.contains(&(2, 3)));
            assert!(available.contains(&(3, 4)));
            let error = MigrationError::NoPath { from, to, available };
            let message = error.to_display_string();
            assert!(message.contains("Cannot migrate from schema v1 to v4"));
            assert!(message.contains("Supported migrations:"));
            assert!(message.contains("v2->v3"));
            assert!(message.contains("v3->v4"));
        }
        _ => panic!("Expected NoPath error"),
    }
}

#[test]
fn test_no_migrations_registered_error_message() {
    let registry = MigrationRegistry::new();
    let result = registry.find_path(1, 4);
    match result {
        Err(MigrationError::NoPath { from, to, available }) => {
            assert_eq!(from, 1);
            assert_eq!(to, 4);
            assert!(available.is_empty());
            let message = MigrationError::NoPath { from, to, available }.to_display_string();
            assert!(message.contains("No migrations registered"));
        }
        _ => panic!("Expected NoPath error"),
    }
}

#[test]
fn test_invalid_version_range() {
    let registry = MigrationRegistry::new().register(1, 2, "v1 to v2");
    assert!(matches!(registry.find_path(2, 1), Err(MigrationError::InvalidVersionRange { .. })));
    assert!(matches!(registry.find_path(2, 2), Err(MigrationError::InvalidVersionRange { .. })));
}

#[test]
fn test_describe_path() {
    let registry = MigrationRegistry::new()
        .register(1, 2, "Add foo field")
        .register(2, 3, "Rename bar to baz");
    let descriptions = registry.describe_path(1, 3).unwrap();
    assert_eq!(descriptions.len(), 2);
    assert!(descriptions[0].contains("Add foo field"));
    assert!(descriptions[1].contains("Rename bar to baz"));
}

#[test]
fn test_can_migrate() {
    let registry = MigrationRegistry::new()
        .register(1, 2, "v1 to v2")
        .register(2, 3, "v2 to v3");
    assert!(registry.can_migrate(1, 2));
    assert!(registry.can_migrate(1, 3));
    assert!(registry.can_migrate(2, 3));
    assert!(!registry.can_migrate(1, 4));
    assert!(!registry.can_migrate(3, 1));
}

#[test]
fn test_max_version() {
    let registry = MigrationRegistry::new()
        .register(1, 2, "v1 to v2")
        .register(2, 5, "v2 to v5");
    assert_eq!(registry.max_version(), Some(5));
}

#[test]
fn test_all_versions() {
    let registry = MigrationRegistry::new()
        .register(1, 2, "v1 to v2")
        .register(3, 4, "v3 to v4");
    let versions = registry.all_versions();
    assert_eq!(versions, vec![1, 2, 3, 4]);
}

#[test]
fn test_schema_compatibility_compatible() {
    let registry = MigrationRegistry::new();
    let result = check_schema_compatibility(&registry, 3, 3);
    assert!(matches!(result, SchemaCompatibility::Compatible));
    assert!(result.can_proceed());
}

#[test]
fn test_schema_compatibility_needs_migration() {
    let registry = MigrationRegistry::new()
        .register(1, 2, "v1 to v2")
        .register(2, 3, "v2 to v3");
    let result = check_schema_compatibility(&registry, 1, 3);
    match &result {
        SchemaCompatibility::NeedsMigration { from, to, path } => {
            assert_eq!(*from, 1);
            assert_eq!(*to, 3);
            assert_eq!(*path, vec![(1, 2), (2, 3)]);
        }
        _ => panic!("Expected NeedsMigration"),
    }
    assert!(result.can_proceed());
}

#[test]
fn test_schema_compatibility_incompatible() {
    let registry = MigrationRegistry::new().register(1, 2, "v1 to v2");
    let result = check_schema_compatibility(&registry, 1, 5);
    assert!(matches!(result, SchemaCompatibility::Incompatible { .. }));
    assert!(!result.can_proceed());
}

#[test]
fn test_schema_compatibility_export_newer() {
    let registry = MigrationRegistry::new();
    let result = check_schema_compatibility(&registry, 5, 3);
    match result {
        SchemaCompatibility::ExportNewer { export_version, database_version } => {
            assert_eq!(export_version, 5);
            assert_eq!(database_version, 3);
        }
        _ => panic!("Expected ExportNewer"),
    }
    assert!(!result.can_proceed());
}

#[test]
fn test_migration_report_summary() {
    let report = MigrationReport {
        from_version: 1,
        to_version: 3,
        steps_applied: vec![
            MigrationStep { from: 1, to: 2, description: "Add foo".to_string() },
            MigrationStep { from: 2, to: 3, description: "Add bar".to_string() },
        ],
        was_migrated: true,
    };
    let summary = report.summary();
    assert!(summary.contains("v1 to v3"));
    assert!(summary.contains("2 steps"));
}

#[test]
fn test_schema_compatibility_describe() {
    let registry = MigrationRegistry::new().register(1, 2, "v1 to v2");
    let compatible = check_schema_compatibility(&registry, 2, 2);
    assert!(compatible.describe().contains("no migration needed"));
    let needs_migration = check_schema_compatibility(&registry, 1, 2);
    assert!(needs_migration.describe().contains("Migration required"));
    let export_newer = check_schema_compatibility(&registry, 5, 3);
    assert!(export_newer.describe().contains("newer than database"));
}

#[test]
fn test_validate_import_schema_compatible() {
    let result = validate_import_schema(3, 3);
    assert!(result.is_valid());
    assert!(result.message().contains("compatible"));
}

#[test]
fn test_validate_import_schema_export_newer() {
    let result = validate_import_schema(5, 3);
    assert!(!result.is_valid());
    assert!(result.message().contains("newer"));
}

#[test]
fn test_schema_validation_result_messages() {
    let result = validate_import_schema(3, 3);
    let msg = result.message();
    assert!(msg.contains("export v3"));
    assert!(msg.contains("database v3"));
    assert!(msg.contains("compatible"));

    let result = validate_import_schema(5, 3);
    let msg = result.message();
    assert!(msg.contains("export v5"));
    assert!(msg.contains("database v3"));
    assert!(msg.contains("newer") || msg.contains("incompatible"));
}

#[test]
fn shortest_path_prefers_fewer_steps_over_registration_order() {
    let registry = MigrationRegistry::new()
        .register(1, 2, "a")
        .register(2, 3, "b")
        .register(3, 6, "c")
        .register(1, 5, "d")
        .register(5, 6, "e");
    assert_eq!(registry.find_path(1, 6).unwrap(), vec![(1, 5), (5, 6)]);
}

#[test]
fn migration_report_without_migration_summary() {
    let report = MigrationReport {
        from_version: 3,
        to_version: 3,
        steps_applied: vec![],
        was_migrated: false,
    };
    assert_eq!(report.summary(), "No migration needed (schema v3)");
}

#[test]
fn default_registry_has_no_migrations() {
    let registry = build_default_registry();
    assert_eq!(registry.max_version(), None);
    assert!(registry.all_versions().is_empty());
    assert!(registry.available_migrations().is_empty());
    assert!(registry.get_migration(1, 2).is_none());
}

#[test]
fn validate_import_schema_older_export_is_incompatible_with_default_registry() {
    let result = validate_import_schema(1, 3);
    assert!(!result.is_valid());
    assert!(matches!(result.compatibility, SchemaCompatibility::Incompatible { .. }));
}

#[test]
fn invalid_version_range_display() {
    let e = MigrationError::InvalidVersionRange { from: 4, to: 2 };
    let s = e.to_display_string();
    assert_eq!(s, "Invalid version range: source (4) must be less than target (2)");
}

#[test]
fn find_path_prefers_first_registered_among_shortest() {
    let registry = MigrationRegistry::new()
        .register(1, 2, "a")
        .register(1, 3, "b")
        .register(2, 4, "c")
        .register(3, 4, "d");
    assert_eq!(registry.find_path(1, 4).unwrap(), vec![(1, 2), (2, 4)]);

    let reordered = MigrationRegistry::new()
        .register(1, 3, "b")
        .register(1, 2, "a")
        .register(3, 4, "d")
        .register(2, 4, "c");
    assert_eq!(reordered.find_path(1, 4).unwrap(), vec![(1, 3), (3, 4)]);
}

#[test]
fn compatibility_path_is_find_path() {
    let registry = MigrationRegistry::new()
        .register(1, 3, "b")
        .register(1, 2, "a")
        .register(2, 4, "c")
        .register(3, 4, "d");
    match check_schema_compatibility(&registry, 1, 4) {
        SchemaCompatibility::NeedsMigration { from, to, path } => {
            assert_eq!((from, to), (1, 4));
            assert_eq!(path, registry.find_path(1, 4).unwrap());
            assert_eq!(path, vec![(1, 3), (3, 4)]);
        }
        other => panic!("unexpected: {:?}", other),
    }
}
