use formatpen::environment::{
    format_tools_warning_message_with, install_hint_for_distro, missing_format_tool_labels_with,
    parse_distro_id_from_os_release, refresh_outcome, udisks_availability, RuntimeIssue,
    RuntimeIssueKind,
};
use formatpen::models::Drive;

#[test]
fn parse_distro_id_fedora() {
    let content = r#"NAME="Fedora Linux"
ID=fedora
"#;
    assert_eq!(parse_distro_id_from_os_release(content).as_deref(), Some("fedora"));
}

#[test]
fn parse_distro_id_ubuntu_com_aspas() {
    let content = r#"ID="ubuntu"
"#;
    assert_eq!(parse_distro_id_from_os_release(content).as_deref(), Some("ubuntu"));
}

#[test]
fn hint_fedora_contem_udisks2() {
    let hint = install_hint_for_distro(Some("fedora"));
    assert!(hint.command.contains("udisks2"));
    assert!(hint.command.contains("dnf"));
}

#[test]
fn hint_debian_contem_policykit() {
    let hint = install_hint_for_distro(Some("debian"));
    assert!(hint.command.contains("policykit-1"));
    assert!(hint.command.contains("apt"));
}

#[test]
fn aviso_ferramentas_ausentes_com_mock() {
    let hint = install_hint_for_distro(None);
    let msg = format_tools_warning_message_with(|cmd| cmd != "mkfs.exfat", &hint);
    let warning = msg.expect("deve avisar sobre ferramentas ausentes");
    assert!(warning.contains("exFAT"));
    assert!(warning.contains("Ferramentas de formatação ausentes"));
}

#[test]
fn mock_sem_ferramentas_ausentes_retorna_none() {
    let hint = install_hint_for_distro(None);
    assert!(format_tools_warning_message_with(|_| true, &hint).is_none());
}

#[test]
fn missing_format_tools_detecta_varias() {
    let missing = missing_format_tool_labels_with(|cmd| matches!(cmd, "mkfs.vfat" | "parted"));
    assert!(missing.contains(&"exFAT"));
    assert!(missing.contains(&"NTFS"));
    assert!(!missing.contains(&"FAT32"));
}

#[test]
fn ferramentas_ausentes_na_ordem() {
    let missing = missing_format_tool_labels_with(|cmd| matches!(cmd, "mkfs.vfat" | "parted"));
    assert_eq!(missing, vec!["exFAT", "NTFS", "ext4"]);
    let none = missing_format_tool_labels_with(|_| false);
    assert_eq!(none, vec!["FAT32", "exFAT", "NTFS", "ext4", "reparticionamento"]);
}

#[test]
fn aviso_exato() {
    let hint = install_hint_for_distro(Some("fedora"));
    let msg = format_tools_warning_message_with(|cmd| cmd.starts_with("mkfs.e"), &hint).unwrap();
    assert_eq!(
        msg,
        "Ferramentas de formatação ausentes (FAT32, NTFS, reparticionamento) — a listagem funciona, mas formatar pode falhar.\nFedora:\nsudo dnf install gtk4 libadwaita udisks2 polkit dosfstools exfatprogs ntfs-3g e2fsprogs parted"
    );
}

#[test]
fn distro_id_primeira_linha_id_em_minusculas() {
    let content = "VERSION_ID=40\r\nID=\"Pop\"\r\nID=ubuntu\n";
    assert_eq!(parse_distro_id_from_os_release(content).as_deref(), Some("pop"));
    assert_eq!(parse_distro_id_from_os_release("NAME=x\n ID=y\n"), None);
    assert_eq!(parse_distro_id_from_os_release(""), None);
    assert_eq!(parse_distro_id_from_os_release("ID=arch"), Some("arch".to_string()));
}

#[test]
fn dica_por_distribuicao() {
    assert_eq!(install_hint_for_distro(Some("linuxmint")).label, "Debian/Ubuntu");
    assert_eq!(install_hint_for_distro(Some("pop")).label, "Debian/Ubuntu");
    let arch = install_hint_for_distro(Some("arch"));
    assert_eq!(arch.label, "arch");
    assert!(arch.command.starts_with("Instale UDisks2"));
    let none = install_hint_for_distro(None);
    assert_eq!(none.label, "Linux");
    assert!(none.command.contains("\nDebian/Ubuntu: sudo apt"));
}

#[test]
fn disponibilidade_do_udisks() {
    let hint = install_hint_for_distro(Some("fedora"));
    assert!(udisks_availability(true, true, &hint).is_ok());
    let no_bus = udisks_availability(false, true, &hint).unwrap_err();
    assert_eq!(no_bus.kind, RuntimeIssueKind::DbusUnavailable);
    assert_eq!(no_bus.title, "D-Bus do sistema indisponível");
    let no_owner = udisks_availability(true, false, &hint).unwrap_err();
    assert_eq!(no_owner.kind, RuntimeIssueKind::UDisksUnavailable);
    assert!(no_owner.detail.ends_with("\n\nFedora:\nsudo dnf install gtk4 libadwaita udisks2 polkit dosfstools exfatprogs ntfs-3g e2fsprogs parted"));
}

fn sample_drive(path: &str) -> Drive {
    Drive {
        path: path.to_string(),
        device_path: format!("/dev/{path}"),
        size: 1024,
        label: None,
        model: None,
        id_type: None,
        is_removable: true,
        mount_points: Vec::new(),
        object_path: format!("/org/freedesktop/UDisks2/block_devices/{path}"),
        drive_object_path: "/org/freedesktop/UDisks2/drives/X".to_string(),
    }
}

#[test]
fn resultado_da_atualizacao() {
    let hint = install_hint_for_distro(Some("debian"));
    let issue = RuntimeIssue {
        kind: RuntimeIssueKind::DbusUnavailable,
        title: "t".to_string(),
        detail: "d".to_string(),
    };
    let out = refresh_outcome(Err(issue.clone()), Ok(vec![sample_drive("sdb")]), &hint, Some("w".to_string()));
    assert!(out.drives.is_empty());
    assert_eq!(out.runtime_issue, Some(issue));
    assert!(out.format_tools_warning.is_none());

    let out = refresh_outcome(Ok(()), Err("falhou".to_string()), &hint, None);
    let issue = out.runtime_issue.unwrap();
    assert_eq!(issue.title, "Não foi possível acessar o UDisks2");
    assert!(issue.detail.starts_with("falhou\n\nDebian/Ubuntu:\nsudo apt"));

    let out = refresh_outcome(Ok(()), Ok(vec![sample_drive("sdb")]), &hint, Some("w".to_string()));
    assert_eq!(out.drives.len(), 1);
    assert!(out.runtime_issue.is_none());
    assert_eq!(out.format_tools_warning.as_deref(), Some("w"));
}
