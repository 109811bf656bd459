use formatpen::updater::{auto_update_pref_content, parse_auto_update_pref, updates_disabled_by, AutoUpdatePref};

#[test]
fn pref_ausente_e_not_asked() {
    assert_eq!(parse_auto_update_pref(""), AutoUpdatePref::NotAsked);
}

#[test]
fn salva_e_carrega_pref() {
    assert_eq!(parse_auto_update_pref(&auto_update_pref_content(true)), AutoUpdatePref::Enabled);
    assert_eq!(parse_auto_update_pref(&auto_update_pref_content(false)), AutoUpdatePref::Disabled);
}

#[test]
fn updates_disabled_respeita_env() {
    assert!(updates_disabled_by(Some("1"), None));
    assert!(updates_disabled_by(None, Some("true")));
    assert!(updates_disabled_by(Some("no"), Some("yes")));
    assert!(!updates_disabled_by(Some("0"), Some("TRUE")));
    assert!(!updates_disabled_by(None, None));
}

#[test]
fn preferencia_le_primeira_linha_com_chave() {
    assert_eq!(auto_update_pref_content(true), "auto_update=true\n");
    assert_eq!(
        parse_auto_update_pref("# x\n  auto_update = yes\nauto_update=false\n"),
        AutoUpdatePref::Disabled
    );
    assert_eq!(parse_auto_update_pref("  auto_update= yes \n"), AutoUpdatePref::Enabled);
    assert_eq!(parse_auto_update_pref("auto_update=talvez\nauto_update=1\n"), AutoUpdatePref::NotAsked);
    assert_eq!(parse_auto_update_pref("auto_update=0"), AutoUpdatePref::Disabled);
}
