//! The code-page enumeration: its menu names, its order, and its default.

use lcf_explorer::code_page::CodePage;

#[test]
fn menu_names() {
    assert_eq!(CodePage::Ascii.to_str(), "West European (ASCII)");
    assert_eq!(CodePage::Eastern.to_str(), "East European (1250)");
    assert_eq!(CodePage::Cyrillic.to_str(), "Cyrillic (1251)");
    assert_eq!(CodePage::ShiftJIS.to_str(), "Japanese (Shift JIS)");
    assert_eq!(CodePage::Big5.to_str(), "Chinese (Big5)");
}

#[test]
fn menu_order_and_default() {
    let all = CodePage::all();
    assert_eq!(all.len(), 5);
    assert!(all[0] == CodePage::Ascii);
    assert!(all[1] == CodePage::Big5);
    assert!(all[2] == CodePage::Cyrillic);
    assert!(all[3] == CodePage::Eastern);
    assert!(all[4] == CodePage::ShiftJIS);
    assert!(CodePage::default() == CodePage::Ascii);
}
