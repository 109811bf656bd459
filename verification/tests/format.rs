use formatpen::services::format::{partition_delete_order, partition_paths_for_drive};
use formatpen::services::step_failure_context;
use formatpen::services::{partition_name_for_create, FilesystemType, FormatService, FormatStep, ManagedObject};
use formatpen::test_support::{BlockBuilder, DriveBuilder};

/// Removable `sde` and its partition `sde1` (only the whole disk is listed).
fn removable_disk_with_partition() -> Vec<ManagedObject> {
    let mut managed = Vec::new();
    DriveBuilder::removable("Kingston_xxx").insert_into(&mut managed, "Kingston_xxx");
    BlockBuilder::whole_disk("sde", "Kingston_xxx").insert_into(&mut managed, "sde");
    BlockBuilder::partition("sde1", "Kingston_xxx").insert_into(&mut managed, "sde1");
    managed
}

#[test]
fn tipo_fs_mapeia_nome_udisks() {
    assert_eq!(FilesystemType::Fat32.udisks2_name(), "vfat");
    assert_eq!(FilesystemType::ExFat.udisks2_name(), "exfat");
    assert_eq!(FilesystemType::Ntfs.udisks2_name(), "ntfs");
    assert_eq!(FilesystemType::Ext4.udisks2_name(), "ext4");
}

#[test]
fn fat_exfat_ntfs_usam_mbr() {
    assert_eq!(FilesystemType::Fat32.partition_table_type(), "dos");
    assert_eq!(FilesystemType::ExFat.partition_table_type(), "dos");
    assert_eq!(FilesystemType::Ntfs.partition_table_type(), "dos");
    assert_eq!(FilesystemType::Ext4.partition_table_type(), "gpt");
}

#[test]
fn mbr_nao_usa_label_como_nome_particao() {
    assert_eq!(
        partition_name_for_create(FilesystemType::ExFat, Some("Teste2")),
        ""
    );
    assert_eq!(
        partition_name_for_create(FilesystemType::Fat32, Some("MEUPENDRIVE")),
        ""
    );
}

#[test]
fn gpt_permite_nome_particao_do_label() {
    assert_eq!(
        partition_name_for_create(FilesystemType::Ext4, Some("dados")),
        "dados"
    );
    assert_eq!(partition_name_for_create(FilesystemType::Ext4, None), "");
}

#[test]
fn partition_paths_for_drive_lista_particoes() {
    let managed = removable_disk_with_partition();
    let drive_path = "/org/freedesktop/UDisks2/drives/Kingston_xxx";
    let paths = partition_paths_for_drive(&managed, drive_path);
    assert_eq!(paths.len(), 1);
    assert!(paths[0].contains("sde1"));
}

#[test]
fn partition_delete_order_reversa() {
    let paths = vec![
        "/org/freedesktop/UDisks2/block_devices/sde1".to_string(),
        "/org/freedesktop/UDisks2/block_devices/sde2".to_string(),
        "/org/freedesktop/UDisks2/block_devices/sde3".to_string(),
    ];
    let ordered = partition_delete_order(&paths);
    assert_eq!(ordered[0], paths[2]);
    assert_eq!(ordered[1], paths[1]);
    assert_eq!(ordered[2], paths[0]);
}

#[test]
fn max_label_length_por_fs() {
    assert_eq!(FilesystemType::Fat32.max_label_length(), 11);
    assert_eq!(FilesystemType::ExFat.max_label_length(), 11);
    assert_eq!(FilesystemType::Ntfs.max_label_length(), 32);
    assert_eq!(FilesystemType::Ext4.max_label_length(), 16);
}

#[test]
fn ordem_de_exclusao_de_lista_desordenada() {
    let paths = vec!["b".to_string(), "c".to_string(), "a".to_string(), "b".to_string()];
    assert_eq!(partition_delete_order(&paths), vec!["c", "b", "b", "a"]);
    assert!(partition_delete_order(&[]).is_empty());
}

#[test]
fn particoes_de_outro_drive_nao_entram() {
    let mut managed = removable_disk_with_partition();
    BlockBuilder::partition("sdf2", "Outro").insert_into(&mut managed, "sdf2");
    BlockBuilder::partition("sde3", "Kingston_xxx").insert_into(&mut managed, "sde3");
    BlockBuilder::partition("sde2", "Kingston_xxx").insert_into(&mut managed, "sde2");
    let paths = partition_paths_for_drive(&managed, "/org/freedesktop/UDisks2/drives/Kingston_xxx");
    assert_eq!(
        paths,
        vec![
            "/org/freedesktop/UDisks2/block_devices/sde1",
            "/org/freedesktop/UDisks2/block_devices/sde2",
            "/org/freedesktop/UDisks2/block_devices/sde3",
        ]
    );
}

#[test]
fn passos_da_formatacao() {
    let mut managed = removable_disk_with_partition();
    BlockBuilder::partition("sde2", "Kingston_xxx").insert_into(&mut managed, "sde2");
    let steps = FormatService::format_steps(
        &managed,
        "/org/freedesktop/UDisks2/block_devices/sde",
        "/org/freedesktop/UDisks2/drives/Kingston_xxx",
        FilesystemType::Ext4,
        Some("dados"),
    );
    assert_eq!(steps.len(), 6);
    let target = |s: &FormatStep| match s {
        FormatStep::Unmount { object_path } => format!("u {object_path}"),
        FormatStep::DeletePartition { object_path } => format!("d {object_path}"),
        _ => String::new(),
    };
    assert_eq!(target(&steps[0]), "u /org/freedesktop/UDisks2/block_devices/sde1");
    assert_eq!(target(&steps[1]), "u /org/freedesktop/UDisks2/block_devices/sde2");
    assert_eq!(target(&steps[2]), "d /org/freedesktop/UDisks2/block_devices/sde2");
    assert_eq!(target(&steps[3]), "d /org/freedesktop/UDisks2/block_devices/sde1");
    match &steps[4] {
        FormatStep::CreatePartitionTable { disk_object_path, table_type } => {
            assert_eq!(disk_object_path, "/org/freedesktop/UDisks2/block_devices/sde");
            assert_eq!(table_type, "gpt");
        }
        other => panic!("unexpected step {other:?}"),
    }
    match &steps[5] {
        FormatStep::CreatePartitionAndFormat { offset, size, partition_name, filesystem, label, .. } => {
            assert_eq!(*offset, 1_048_576);
            assert_eq!(*size, 0);
            assert_eq!(partition_name, "dados");
            assert_eq!(filesystem, "ext4");
            assert_eq!(label.as_deref(), Some("dados"));
        }
        other => panic!("unexpected step {other:?}"),
    }
}

#[test]
fn rotulo_vazio_nao_vira_opcao() {
    let steps = FormatService::format_steps(&Vec::new(), "/d", "/x", FilesystemType::Fat32, Some(""));
    assert_eq!(steps.len(), 2);
    match &steps[1] {
        FormatStep::CreatePartitionAndFormat { partition_name, filesystem, label, .. } => {
            assert_eq!(partition_name, "");
            assert_eq!(filesystem, "vfat");
            assert!(label.is_none());
        }
        other => panic!("unexpected step {other:?}"),
    }
}

#[test]
fn selecao_de_tipo() {
    assert_eq!(FilesystemType::at_selection(2), FilesystemType::Ntfs);
    assert_eq!(FilesystemType::at_selection(7), FilesystemType::Fat32);
    assert_eq!(FilesystemType::all().len(), 4);
}

#[test]
fn falha_so_encerra_nos_passos_de_criacao() {
    let steps = FormatService::format_steps(
        &removable_disk_with_partition(),
        "/org/freedesktop/UDisks2/block_devices/sde",
        "/org/freedesktop/UDisks2/drives/Kingston_xxx",
        FilesystemType::ExFat,
        Some("PEN"),
    );
    let contexts: Vec<Option<&str>> = steps.iter().map(step_failure_context).collect();
    let expected: Vec<Option<&str>> = steps
        .iter()
        .map(|s| match s {
            FormatStep::Unmount { .. } | FormatStep::DeletePartition { .. } => None,
            FormatStep::CreatePartitionTable { .. } => Some("Falha ao recriar tabela de partições"),
            FormatStep::CreatePartitionAndFormat { .. } => Some("Falha ao criar partição e formatar"),
        })
        .collect();
    assert_eq!(contexts, expected);
    assert_eq!(contexts[contexts.len() - 2], Some("Falha ao recriar tabela de partições"));
    assert_eq!(contexts[contexts.len() - 1], Some("Falha ao criar partição e formatar"));
    assert_eq!(
        step_failure_context(&FormatStep::Unmount { object_path: "/x".into() }),
        None
    );
    assert_eq!(
        step_failure_context(&FormatStep::DeletePartition { object_path: "/x".into() }),
        None
    );
}
