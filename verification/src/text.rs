//! Text for labels: code-page decoding of byte strings, and the small
//! formatting helpers every projector shares (decimal numbers, booleans,
//! indentation, byte dumps).

use vstd::prelude::*;

use crate::code_page::CodePage;

verus! {

/// The text that the selected code page's decoder yields for a byte string.
/// The decoding tables are fixed, so the result depends on the code page and
/// the bytes alone; stating the tables themselves is out of reach, so the
/// result only carries this name.
pub uninterp spec fn decoded_text(page: int, bytes: Seq<u8>) -> Seq<char>;

/// A numeric code naming each code page inside `decoded_text`.
pub open spec fn page_code(page: CodePage) -> int {
    match page {
        CodePage::Ascii => 0,
        CodePage::Eastern => 1,
        CodePage::Cyrillic => 2,
        CodePage::ShiftJIS => 3,
        CodePage::Big5 => 4,
    }
}

/// Relies on encoding_rs::Encoding::decode: decoding is total (malformed
/// sequences come back as replacement characters, never an error), depends
/// only on the encoding and the input bytes, and empty input yields empty
/// text.
#[verifier::external_body]
pub fn decode_bytes(page: CodePage, bytes: &[u8]) -> (r: String)
    ensures
        r@ == decoded_text(page_code(page), bytes@),
        bytes@.len() == 0 ==> r@.len() == 0,
{
    let encoding = match page {
        CodePage::Ascii => encoding_rs::WINDOWS_1252,
        CodePage::Eastern => encoding_rs::WINDOWS_1250,
        CodePage::Cyrillic => encoding_rs::WINDOWS_1251,
        CodePage::ShiftJIS => encoding_rs::SHIFT_JIS,
        CodePage::Big5 => encoding_rs::BIG5,
    };
    let (text, _, _) = encoding.decode(bytes);
    text.into_owned()
}

/// The character for one decimal digit.
pub open spec fn digit_char(d: nat) -> char {
    if d == 0 {
        '0'
    } else if d == 1 {
        '1'
    } else if d == 2 {
        '2'
    } else if d == 3 {
        '3'
    } else if d == 4 {
        '4'
    } else if d == 5 {
        '5'
    } else if d == 6 {
        '6'
    } else if d == 7 {
        '7'
    } else if d == 8 {
        '8'
    } else {
        '9'
    }
}

/// The decimal rendering of a natural number, most significant digit first.
pub open spec fn dec_str(n: nat) -> Seq<char>
    decreases n,
{
    if n < 10 {
        seq![digit_char(n)]
    } else {
        dec_str(n / 10) + seq![digit_char(n % 10)]
    }
}

fn digit_str(d: u64) -> (r: &'static str)
    requires
        d < 10,
    ensures
        r@ == seq![digit_char(d as nat)],
{
    proof {
        reveal_strlit("0");
        reveal_strlit("1");
        reveal_strlit("2");
        reveal_strlit("3");
        reveal_strlit("4");
        reveal_strlit("5");
        reveal_strlit("6");
        reveal_strlit("7");
        reveal_strlit("8");
        reveal_strlit("9");
    }
    let r = match d {
        0 => "0",
        1 => "1",
        2 => "2",
        3 => "3",
        4 => "4",
        5 => "5",
        6 => "6",
        7 => "7",
        8 => "8",
        _ => "9",
    };
    proof {
        assert(r@ =~= seq![digit_char(d as nat)]);
    }
    r
}

/// Renders a number in decimal.
pub fn dec(n: u64) -> (r: String)
    ensures
        r@ == dec_str(n as nat),
    decreases n,
{
    if n < 10 {
        String::from_str(digit_str(n))
    } else {
        let high = dec(n / 10);
        high.concat(digit_str(n % 10))
    }
}

/// The rendering of a boolean.
pub open spec fn bool_str(b: bool) -> Seq<char> {
    if b {
        "true"@
    } else {
        "false"@
    }
}

/// Renders a boolean as `true` or `false`.
pub fn bool_text(b: bool) -> (r: &'static str)
    ensures
        r@ == bool_str(b),
{
    if b {
        "true"
    } else {
        "false"
    }
}

/// A run of `n` tab characters, used as an indentation prefix.
pub open spec fn tab_str(n: nat) -> Seq<char> {
    Seq::new(n, |i: int| '\t')
}

/// Renders `n` tab characters.
pub fn tabs(n: u64) -> (r: String)
    ensures
        r@ == tab_str(n as nat),
{
    let mut acc = String::new();
    let mut i: u64 = 0;
    proof {
        reveal_strlit("\t");
    }
    while i < n
        invariant
            i <= n,
            acc@ =~= tab_str(i as nat),
            "\t"@ == seq!['\t'],
        decreases n - i,
    {
        acc.append("\t");
        i = i + 1;
        proof {
            assert(acc@ =~= tab_str(i as nat));
        }
    }
    acc
}

/// The inner part of a byte dump: the decimal bytes joined by `", "`.
pub open spec fn byte_list_body(b: Seq<u8>) -> Seq<char>
    decreases b.len(),
{
    if b.len() == 0 {
        Seq::empty()
    } else if b.len() == 1 {
        dec_str(b[0] as nat)
    } else {
        byte_list_body(b.drop_last()) + seq![',', ' '] + dec_str(b.last() as nat)
    }
}

/// The byte dump of a byte string: decimal values between square brackets.
pub open spec fn byte_list_str(b: Seq<u8>) -> Seq<char> {
    seq!['['] + byte_list_body(b) + seq![']']
}

/// Renders a byte string as a byte dump such as `[7, 0, 255]`.
pub fn byte_list(b: &[u8]) -> (r: String)
    ensures
        r@ == byte_list_str(b@),
{
    proof {
        reveal_strlit("[");
        reveal_strlit("]");
        reveal_strlit(", ");
    }
    let mut acc = String::from_str("[");
    assert(acc@ =~= seq!['[']);
    let mut i: usize = 0;
    while i < b.len()
        invariant
            i <= b@.len(),
            acc@ == seq!['['] + byte_list_body(b@.take(i as int)),
            ", "@ == seq![',', ' '],
        decreases b@.len() - i,
    {
        if i > 0 {
            acc.append(", ");
        }
        let d = dec(b[i] as u64);
        acc.append(d.as_str());
        proof {
            let t = b@.take(i + 1 as int);
            assert(t.drop_last() =~= b@.take(i as int));
            assert(t.last() == b@[i as int]);
            assert(acc@ =~= seq!['['] + byte_list_body(t));
        }
        i = i + 1;
    }
    proof {
        assert(b@.take(b@.len() as int) =~= b@);
    }
    acc.concat("]")
}

/// The inner part of a number dump: the decimal values joined by `", "`.
pub open spec fn num_list_body(b: Seq<u64>) -> Seq<char>
    decreases b.len(),
{
    if b.len() == 0 {
        Seq::empty()
    } else if b.len() == 1 {
        dec_str(b[0] as nat)
    } else {
        num_list_body(b.drop_last()) + seq![',', ' '] + dec_str(b.last() as nat)
    }
}

/// The dump of a number list: decimal values between square brackets.
pub open spec fn num_list_str(b: Seq<u64>) -> Seq<char> {
    seq!['['] + num_list_body(b) + seq![']']
}

/// Renders a number list such as `[7, 0, 70000]`.
pub fn num_list(b: &[u64]) -> (r: String)
    ensures
        r@ == num_list_str(b@),
{
    proof {
        reveal_strlit("[");
        reveal_strlit("]");
        reveal_strlit(", ");
    }
    let mut acc = String::from_str("[");
    assert(acc@ =~= seq!['[']);
    let mut i: usize = 0;
    while i < b.len()
        invariant
            i <= b@.len(),
            acc@ == seq!['['] + num_list_body(b@.take(i as int)),
            ", "@ == seq![',', ' '],
        decreases b@.len() - i,
    {
        if i > 0 {
            acc.append(", ");
        }
        let d = dec(b[i]);
        acc.append(d.as_str());
        proof {
            let t = b@.take(i + 1 as int);
            assert(t.drop_last() =~= b@.take(i as int));
            assert(t.last() == b@[i as int]);
            assert(acc@ =~= seq!['['] + num_list_body(t));
        }
        i = i + 1;
    }
    proof {
        assert(b@.take(b@.len() as int) =~= b@);
    }
    acc.concat("]")
}

/// Renders `prefix` followed by `n` in decimal.
pub fn label_num(prefix: &str, n: u64) -> (r: String)
    ensures
        r@ == prefix@ + dec_str(n as nat),
{
    String::from_str(prefix).concat(dec(n).as_str())
}

/// Renders `prefix` followed by `true` or `false`.
pub fn label_bool(prefix: &str, b: bool) -> (r: String)
    ensures
        r@ == prefix@ + bool_str(b),
{
    String::from_str(prefix).concat(bool_text(b))
}

/// Renders `prefix` followed by a byte dump.
pub fn label_bytes(prefix: &str, b: &[u8]) -> (r: String)
    ensures
        r@ == prefix@ + byte_list_str(b@),
{
    String::from_str(prefix).concat(byte_list(b).as_str())
}

/// Renders `prefix` followed by the text the code page decodes from `b`.
pub fn label_text(prefix: &str, page: CodePage, b: &[u8]) -> (r: String)
    ensures
        r@ == prefix@ + decoded_text(page_code(page), b@),
{
    String::from_str(prefix).concat(decode_bytes(page, b).as_str())
}

} // verus!
