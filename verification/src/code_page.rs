//! The closed set of legacy text encodings a document's strings may use.
//!
//! A code page is selected globally per opened document instance; it supplies
//! the byte-to-text decoding used for every text-bearing label during one
//! projection pass.

use vstd::prelude::*;

verus! {

/// A legacy text encoding selector. The set is closed: exactly five encodings.
#[derive(Clone, Copy, PartialEq, Eq, Structural)]
pub enum CodePage {
    /// Western default (windows-1252).
    Ascii,
    /// East-European (windows-1250).
    Eastern,
    /// Cyrillic (windows-1251).
    Cyrillic,
    /// Japanese (Shift JIS).
    ShiftJIS,
    /// Chinese (Big5).
    Big5,
}

impl Default for CodePage {
    /// The Western encoding is the default selection.
    fn default() -> (r: Self)
        ensures
            r == CodePage::Ascii,
    {
        CodePage::Ascii
    }
}

impl CodePage {
    /// The human-readable menu name of this code page.
    pub fn to_str(self) -> (r: &'static str)
        ensures
            self == CodePage::Ascii ==> r@ == "West European (ASCII)"@,
            self == CodePage::Eastern ==> r@ == "East European (1250)"@,
            self == CodePage::Cyrillic ==> r@ == "Cyrillic (1251)"@,
            self == CodePage::ShiftJIS ==> r@ == "Japanese (Shift JIS)"@,
            self == CodePage::Big5 ==> r@ == "Chinese (Big5)"@,
    {
        match self {
            CodePage::Ascii => "West European (ASCII)",
            CodePage::Eastern => "East European (1250)",
            CodePage::Cyrillic => "Cyrillic (1251)",
            CodePage::ShiftJIS => "Japanese (Shift JIS)",
            CodePage::Big5 => "Chinese (Big5)",
        }
    }

    /// Every code page, in menu order.
    pub fn all() -> (r: Vec<CodePage>)
        ensures
            r@ == seq![
                CodePage::Ascii,
                CodePage::Big5,
                CodePage::Cyrillic,
                CodePage::Eastern,
                CodePage::ShiftJIS,
            ],
    {
        let mut v: Vec<CodePage> = Vec::new();
        v.push(CodePage::Ascii);
        v.push(CodePage::Big5);
        v.push(CodePage::Cyrillic);
        v.push(CodePage::Eastern);
        v.push(CodePage::ShiftJIS);
        assert(v@ =~= seq![
            CodePage::Ascii,
            CodePage::Big5,
            CodePage::Cyrillic,
            CodePage::Eastern,
            CodePage::ShiftJIS,
        ]);
        v
    }
}

} // verus!
