use formatpen::label_validation::{label_hint_for, truncate_to_max, validate_volume_label};
use formatpen::services::FilesystemType;

#[test]
fn permite_label_vazio() {
    assert_eq!(validate_volume_label("", FilesystemType::Fat32).unwrap(), None);
    assert_eq!(
        validate_volume_label("   ", FilesystemType::ExFat).unwrap(),
        None
    );
}

#[test]
fn label_valido_remove_espacos() {
    assert_eq!(
        validate_volume_label("  MeuPen  ", FilesystemType::Fat32).unwrap(),
        Some("MeuPen".to_string())
    );
}

#[test]
fn rejeita_caracteres_proibidos() {
    let err = validate_volume_label("a/b", FilesystemType::Fat32).unwrap_err();
    assert!(err.contains("caractere(s)"));
    assert!(err.contains("/"));
}

#[test]
fn fat32_limite_11_caracteres() {
    assert!(validate_volume_label("12345678901", FilesystemType::Fat32).is_ok());
    let err = validate_volume_label("123456789012", FilesystemType::Fat32).unwrap_err();
    assert!(err.contains("11"));
    assert!(err.contains("FAT32"));
}

#[test]
fn exfat_limite_11_caracteres() {
    let ok = "a".repeat(11);
    let long = "a".repeat(12);
    assert!(validate_volume_label(&ok, FilesystemType::ExFat).is_ok());
    assert!(validate_volume_label(&long, FilesystemType::ExFat).is_err());
}

#[test]
fn fat32_e_exfat_compartilham_limite_11() {
    assert_eq!(
        FilesystemType::Fat32.max_label_length(),
        FilesystemType::ExFat.max_label_length()
    );
}

#[test]
fn truncate_to_max_respeita_limite() {
    assert_eq!(
        truncate_to_max("123456789012", FilesystemType::ExFat),
        "12345678901"
    );
}

#[test]
fn ext4_limite_16_caracteres() {
    let ok = "a".repeat(16);
    let long = "a".repeat(17);
    assert!(validate_volume_label(&ok, FilesystemType::Ext4).is_ok());
    assert!(validate_volume_label(&long, FilesystemType::Ext4).is_err());
}

#[test]
fn truncate_unicode_por_caracteres_nao_bytes() {
    let text = "ação1234567"; // 11 chars with ç and ã
    assert_eq!(truncate_to_max(text, FilesystemType::Fat32), text);
    let long = format!("{text}x");
    assert_eq!(
        truncate_to_max(&long, FilesystemType::Fat32).chars().count(),
        11
    );
}

#[test]
fn label_hint_para_cada_fs() {
    assert!(label_hint_for(FilesystemType::Fat32).contains("FAT32"));
    assert!(label_hint_for(FilesystemType::ExFat).contains("exFAT"));
    assert!(label_hint_for(FilesystemType::Ntfs).contains("NTFS"));
    assert!(label_hint_for(FilesystemType::Ext4).contains("ext4"));
}

#[test]
fn ntfs_limite_32_caracteres() {
    let ok = "a".repeat(32);
    let long = "a".repeat(33);
    assert!(validate_volume_label(&ok, FilesystemType::Ntfs).is_ok());
    let err = validate_volume_label(&long, FilesystemType::Ntfs).unwrap_err();
    assert!(err.contains("32"));
    assert!(err.contains("NTFS"));
}

// Exact messages, and the rules behind them.

#[test]
fn mensagem_lista_caracteres_ordenados_sem_repeticao() {
    let err = validate_volume_label("a|b\\c\"d/e/f", FilesystemType::Fat32).unwrap_err();
    assert_eq!(
        err,
        "O nome do volume não pode conter o(s) caractere(s): \" (aspas), '/', \\ (barra invertida), '|'"
    );
}

#[test]
fn caractere_proibido_tem_precedencia_sobre_tamanho() {
    let err = validate_volume_label("abcdefghijkl:", FilesystemType::Fat32).unwrap_err();
    assert_eq!(err, "O nome do volume não pode conter o(s) caractere(s): ':'");
}

#[test]
fn mensagem_exata_de_tamanho() {
    let err = validate_volume_label("abcdefghijklmnopq", FilesystemType::Ext4).unwrap_err();
    assert_eq!(err, "O nome do volume não pode ter mais de 16 caracteres para ext4.");
}

#[test]
fn espacos_unicode_sao_removidos() {
    assert_eq!(
        validate_volume_label("\u{3000}\tPen\u{a0}\n", FilesystemType::Ntfs).unwrap(),
        Some("Pen".to_string())
    );
}

#[test]
fn limite_conta_apos_remover_espacos() {
    let text = format!("   {}   ", "a".repeat(11));
    assert_eq!(
        validate_volume_label(&text, FilesystemType::Fat32).unwrap(),
        Some("a".repeat(11))
    );
}

#[test]
fn dica_exata() {
    assert_eq!(label_hint_for(FilesystemType::Ntfs), "Máximo 32 caracteres (NTFS)");
    assert_eq!(label_hint_for(FilesystemType::Fat32), "Máximo 11 caracteres (FAT32)");
}

#[test]
fn truncar_texto_curto_nao_muda() {
    assert_eq!(truncate_to_max("abc", FilesystemType::Ntfs), "abc");
    assert_eq!(truncate_to_max("", FilesystemType::Fat32), "");
}

#[test]
fn rotulo_truncado_passa_no_limite() {
    let long = "b".repeat(40);
    for fs in FilesystemType::all() {
        let t = truncate_to_max(&long, fs);
        assert_eq!(truncate_to_max(&t, fs), t);
        assert_eq!(validate_volume_label(&t, fs).unwrap(), Some(t.clone()));
    }
}

#[test]
fn rotulo_aceito_e_aceito_de_novo() {
    let accepted = validate_volume_label("  Dados 2024 ", FilesystemType::Ext4)
        .unwrap()
        .unwrap();
    assert_eq!(
        validate_volume_label(&accepted, FilesystemType::Ext4).unwrap(),
        Some(accepted.clone())
    );
}
