use mxdata::install::{install_kind, mod_version_supported, next_palette_key, InstallKind};

#[test]
fn extensions_name_kinds() {
    assert_eq!(install_kind("mxmod"), InstallKind::Mod);
    assert_eq!(install_kind("mxpalette"), InstallKind::Palette);
    assert_eq!(install_kind("mxmusic"), InstallKind::Music);
    assert_eq!(install_kind("zip"), InstallKind::Unknown);
    assert_eq!(install_kind(""), InstallKind::Unknown);
}

#[test]
fn only_known_mod_formats_install() {
    assert!(mod_version_supported(0));
    assert!(mod_version_supported(1));
    assert!(!mod_version_supported(2));
}

#[test]
fn next_key_follows_largest() {
    assert_eq!(next_palette_key(&[3, 10, 7]), Some(11));
    assert_eq!(next_palette_key(&[0]), Some(1));
    assert_eq!(next_palette_key(&[]), None);
    assert_eq!(next_palette_key(&[4, u16::MAX]), None);
}
