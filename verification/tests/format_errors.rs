use formatpen::format_errors::{
    classify_format_error, user_message_for_format_error, user_message_for_lowercase_error,
    FormatErrorKind,
};

/// The chain text of an error made of `msg` alone.
fn err_from(msg: &str) -> String {
    msg.to_string()
}

/// The chain text of an error `msg` with the context `ctx` around it.
fn err_with_context(msg: &str, ctx: &str) -> String {
    format!("{ctx}: {msg}")
}

#[test]
fn mapeia_label_exfat_longa() {
    let e = err_with_context(
        "org.freedesktop.UDisks2.Error.Failed: Label for exFAT filesystem is too long",
        "Falha ao criar partição e formatar",
    );
    let msg = user_message_for_format_error(&e);
    assert!(!msg.show_install_hint);
    assert!(msg.message.contains("11 caracteres"));
}

#[test]
fn mapeia_permissao_negada() {
    let e = err_from("org.freedesktop.UDisks2.Error.NotAuthorized: Not authorized");
    let msg = user_message_for_format_error(&e);
    assert!(!msg.show_install_hint);
    assert!(msg.message.contains("Permissão negada"));
}

#[test]
fn mapeia_dispositivo_ocupado() {
    let e = err_from("Device is busy");
    let msg = user_message_for_format_error(&e);
    assert!(!msg.show_install_hint);
    assert!(msg.message.contains("em uso"));
    assert!(msg.message.contains("gerenciadores de arquivos"));
    assert!(!msg.message.to_lowercase().contains("dolphin"));
}

#[test]
fn mapeia_ferramenta_ausente() {
    let e = err_from("Failed to execute mkfs.vfat: No such file or directory");
    let msg = user_message_for_format_error(&e);
    assert!(msg.show_install_hint);
    assert!(msg.message.contains("Ferramenta"));
}

#[test]
fn mapeia_label_vfat_longa() {
    let e = err_with_context(
        "org.freedesktop.UDisks2.Error.Failed: Label for vfat filesystem is too long",
        "Falha ao criar partição e formatar",
    );
    let msg = user_message_for_format_error(&e);
    assert!(!msg.show_install_hint);
    assert!(msg.message.contains("FAT32"));
    assert!(msg.message.contains("11 caracteres"));
}

#[test]
fn erro_desconhecido_sem_dica_instalacao() {
    let e = err_from("Something unexpected happened");
    let msg = user_message_for_format_error(&e);
    assert!(!msg.show_install_hint);
    assert!(msg.message.contains("Não foi possível formatar"));
}

#[test]
fn classificacao_respeita_ordem_das_regras() {
    // Both "not authorized" and "busy" occur: the earlier rule wins.
    assert_eq!(
        classify_format_error("not authorized: device is busy"),
        FormatErrorKind::NotAuthorized
    );
    assert_eq!(classify_format_error("label for fat is too long, mounted"), FormatErrorKind::FatLabelTooLong);
    assert_eq!(classify_format_error("mkfs exited"), FormatErrorKind::ToolMissing);
    assert_eq!(classify_format_error("partition is mounted"), FormatErrorKind::DeviceBusy);
    assert_eq!(classify_format_error(""), FormatErrorKind::Unknown);
}

#[test]
fn classificacao_exige_minusculas() {
    // The classification reads lower-case text; the public entry lowers it first.
    assert_eq!(classify_format_error("Device is BUSY"), FormatErrorKind::Unknown);
    assert_eq!(
        user_message_for_format_error("Device is BUSY").message,
        user_message_for_lowercase_error("device is busy").message
    );
}

#[test]
fn mensagem_exata_exfat() {
    let msg = user_message_for_lowercase_error("label for exfat filesystem is too long");
    assert_eq!(
        msg.message,
        "Nome longo demais para exFAT. Use no máximo 11 caracteres ou deixe vazio."
    );
    assert!(!msg.show_install_hint);
}
