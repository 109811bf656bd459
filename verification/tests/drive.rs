use formatpen::models::{Drive, SizeUnit};

fn sample_drive() -> Drive {
    Drive {
        path: "sdd".to_string(),
        device_path: "/dev/sdd".to_string(),
        size: 57_700_000_000,
        label: Some("OLDLABEL".to_string()),
        model: None,
        id_type: None,
        is_removable: true,
        mount_points: Vec::new(),
        object_path: "/org/freedesktop/UDisks2/block_devices/sdd".to_string(),
        drive_object_path: "/org/freedesktop/UDisks2/drives/Test".to_string(),
    }
}

#[test]
fn nome_exibicao_prioriza_modelo() {
    let mut drive = sample_drive();
    drive.model = Some("Kingston DataTraveler 3.0".to_string());
    assert_eq!(drive.display_name(), "Kingston DataTraveler 3.0");
}

#[test]
fn nome_exibicao_usa_label_ou_dispositivo() {
    let mut drive = sample_drive();
    assert_eq!(drive.display_name(), "OLDLABEL");
    drive.label = None;
    assert_eq!(drive.display_name(), "sdd");
}

#[test]
fn nome_exibicao_ignora_modelo_vazio() {
    let mut drive = sample_drive();
    drive.model = Some("   ".to_string());
    assert_eq!(drive.display_name(), "OLDLABEL");
}

#[test]
fn nome_exibicao_remove_espacos_do_modelo() {
    let mut drive = sample_drive();
    drive.model = Some("  Ultra  ".to_string());
    assert_eq!(drive.display_name(), "Ultra");
}

#[test]
fn unidade_do_tamanho() {
    let mut drive = sample_drive();
    assert_eq!(drive.size_unit(), SizeUnit::Gigabytes);
    drive.size = 512;
    assert_eq!(drive.size_unit(), SizeUnit::Bytes);
    drive.size = 1024;
    assert_eq!(drive.size_unit(), SizeUnit::Kilobytes);
    drive.size = 5 * 1024 * 1024;
    assert_eq!(drive.size_unit(), SizeUnit::Megabytes);
    drive.size = 1024 * 1024 * 1024 - 1;
    assert_eq!(drive.size_unit(), SizeUnit::Megabytes);
    assert_eq!(SizeUnit::Megabytes.divisor(), 1_048_576);
    assert_eq!(SizeUnit::Gigabytes.suffix(), "GB");
}
