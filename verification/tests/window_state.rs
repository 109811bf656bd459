use formatpen::environment::{
    install_hint_for_distro, DriveRefreshOutcome, RuntimeIssue, RuntimeIssueKind,
};
use formatpen::models::Drive;
use formatpen::window_state::{confirm_format_message, format_failure_message, refresh_view_for};

fn drive() -> Drive {
    Drive {
        path: "sde".into(),
        device_path: "/dev/sde".into(),
        size: 16_000_000_000,
        label: Some("MEUPEN".into()),
        model: Some("Kingston DataTraveler".into()),
        id_type: None,
        is_removable: true,
        mount_points: vec![],
        object_path: "/org/freedesktop/UDisks2/block_devices/sde".into(),
        drive_object_path: "/org/freedesktop/UDisks2/drives/Kingston".into(),
    }
}

#[test]
fn janela_com_problema_de_ambiente() {
    let outcome = DriveRefreshOutcome {
        drives: vec![],
        runtime_issue: Some(RuntimeIssue {
            kind: RuntimeIssueKind::UDisksUnavailable,
            title: "UDisks2 não está disponível".into(),
            detail: "detalhe".into(),
        }),
        format_tools_warning: None,
    };
    let v = refresh_view_for(&outcome);
    assert!(v.banner_revealed);
    assert_eq!(v.banner_title.as_deref(), Some("UDisks2 não está disponível"));
    assert!(!v.banner_warning);
    assert_eq!(v.status_message.as_deref(), Some("detalhe"));
    assert!(!v.show_drives);
    assert!(!v.form_sensitive);
}

#[test]
fn janela_sem_dispositivos() {
    let outcome = DriveRefreshOutcome { drives: vec![], runtime_issue: None, format_tools_warning: None };
    let v = refresh_view_for(&outcome);
    assert!(!v.banner_revealed);
    assert!(v.status_message.unwrap().starts_with("Nenhum dispositivo removível encontrado."));
    assert!(!v.form_sensitive);
}

#[test]
fn janela_com_aviso_e_dispositivo() {
    let outcome = DriveRefreshOutcome {
        drives: vec![drive()],
        runtime_issue: None,
        format_tools_warning: Some("aviso".into()),
    };
    let v = refresh_view_for(&outcome);
    assert!(v.banner_revealed && v.banner_warning);
    assert_eq!(v.banner_title.as_deref(), Some("Ferramentas de formatação incompletas no sistema"));
    assert_eq!(v.status_message.as_deref(), Some("aviso"));
    assert!(v.show_drives && v.form_sensitive);
}

#[test]
fn janela_normal_com_dispositivo() {
    let outcome = DriveRefreshOutcome { drives: vec![drive()], runtime_issue: None, format_tools_warning: None };
    let v = refresh_view_for(&outcome);
    assert!(!v.banner_revealed);
    assert!(v.banner_title.is_none());
    assert!(v.status_message.is_none());
    assert!(v.form_sensitive);
}

#[test]
fn confirmacao_nomeia_o_dispositivo() {
    let d = drive();
    assert_eq!(
        confirm_format_message(&d.display_name(), &d.device_path),
        "Todos os dados em Kingston DataTraveler (/dev/sde) serão apagados permanentemente. \
         O dispositivo será reparticionado com uma única partição. Deseja continuar?"
    );
}

#[test]
fn falha_de_formatacao_traz_erro_e_dica() {
    let hint = install_hint_for_distro(Some("fedora"));
    let msg = format_failure_message("Falha ao criar partição e formatar: busy", &hint);
    assert_eq!(
        msg,
        format!(
            "Falha na formatação: Falha ao criar partição e formatar: busy\n\n\
             Feche apps que usem o pendrive e tente de novo. \
             Se faltar ferramentas no sistema:\n{}:\n{}",
            hint.label, hint.command
        )
    );
    assert!(msg.starts_with("Falha na formatação: Falha ao criar"));
    assert!(msg.ends_with(&format!("Fedora:\n{}", hint.command)));
}
