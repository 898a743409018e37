use vstd::prelude::*;

use crate::names::{eq_ignore_ascii_case, same_ignoring_ascii_case};
use crate::text::chars_of;

verus! {

broadcast use vstd::string::group_string_axioms;

/// Number of encodings that the encoding picker offers.
pub const SUPPORTED_ENCODING_COUNT: usize = 15;

/// The label of the `i`-th encoding of the encoding picker.
pub open spec fn supported_label(i: int) -> Seq<char> {
    if i == 0 {
        "UTF-8"@
    } else if i == 1 {
        "UTF-16LE"@
    } else if i == 2 {
        "UTF-16BE"@
    } else if i == 3 {
        "GBK"@
    } else if i == 4 {
        "GB18030"@
    } else if i == 5 {
        "Big5"@
    } else if i == 6 {
        "Shift_JIS"@
    } else if i == 7 {
        "EUC-JP"@
    } else if i == 8 {
        "EUC-KR"@
    } else if i == 9 {
        "ISO-8859-1"@
    } else if i == 10 {
        "ISO-8859-2"@
    } else if i == 11 {
        "ISO-8859-5"@
    } else if i == 12 {
        "ISO-8859-15"@
    } else if i == 13 {
        "Windows-1252"@
    } else {
        "Windows-1251"@
    }
}

/// The label of the `index`-th encoding of the encoding picker, if there is one.
pub fn supported_encoding(index: usize) -> (label: Option<&'static str>)
    ensures
        index < SUPPORTED_ENCODING_COUNT ==> (label matches Some(l) && l@ == supported_label(
            index as int,
        )),
        index >= SUPPORTED_ENCODING_COUNT ==> label is None,
{
    match index {
        0 => Some("UTF-8"),
        1 => Some("UTF-16LE"),
        2 => Some("UTF-16BE"),
        3 => Some("GBK"),
        4 => Some("GB18030"),
        5 => Some("Big5"),
        6 => Some("Shift_JIS"),
        7 => Some("EUC-JP"),
        8 => Some("EUC-KR"),
        9 => Some("ISO-8859-1"),
        10 => Some("ISO-8859-2"),
        11 => Some("ISO-8859-5"),
        12 => Some("ISO-8859-15"),
        13 => Some("Windows-1252"),
        14 => Some("Windows-1251"),
        _ => None,
    }
}

/// Names the canonical name of the encoding that `encoding_rs` resolves a
/// label to (`None` for a label it does not know).
pub uninterp spec fn encoding_for_label(label: Seq<char>) -> Option<Seq<char>>;

/// Names the encoding (by canonical name) that `chardetng` guesses for bytes.
pub uninterp spec fn detected_encoding(bytes: Seq<u8>) -> Seq<char>;

/// Names the text that `encoding_rs` decodes bytes to with an encoding
/// (given by a label it resolves).
pub uninterp spec fn decoded_text(label: Seq<char>, bytes: Seq<u8>) -> Seq<char>;

/// Calls `encoding_rs::Encoding::for_label` and gives the resolved encoding's
/// `name()`.
#[verifier::external_body]
fn resolve_label(label: &str) -> (name: Option<String>)
    ensures
        name.deep_view() == encoding_for_label(label@),
{
    match encoding_rs::Encoding::for_label(label.as_bytes()) {
        Some(encoding) => Some(encoding.name().to_string()),
        None => None,
    }
}

/// Runs `chardetng::EncodingDetector` over all of `bytes` (`feed` with
/// `last = true`, then `guess(None, true)`) and gives the guessed encoding's
/// `name()`.
#[verifier::external_body]
fn guess_encoding(bytes: &[u8]) -> (name: String)
    ensures
        name@ == detected_encoding(bytes@),
{
    let mut detector = chardetng::EncodingDetector::new();
    detector.feed(bytes, true);
    detector.guess(None, true).name().to_string()
}

/// Calls `Encoding::for_label(label)` and, when it resolves, `decode(bytes)`
/// (BOM sniffing, malformed sequences replaced), copying the text.
#[verifier::external_body]
fn decode_with_label(label: &str, bytes: &[u8]) -> (text: Option<String>)
    ensures
        text is Some <==> encoding_for_label(label@) is Some,
        text matches Some(t) ==> t@ == decoded_text(label@, bytes@),
{
    match encoding_rs::Encoding::for_label(label.as_bytes()) {
        Some(encoding) => Some(encoding.decode(bytes).0.into_owned()),
        None => None,
    }
}

/// The canonical name of the encoding that `label` names, if it names one.
pub fn encoding_from_label(label: &str) -> (name: Option<String>)
    ensures
        name.deep_view() == encoding_for_label(label@),
{
    resolve_label(label)
}

/// The canonical name of the encoding guessed for `bytes`.
pub fn detect_encoding(bytes: &[u8]) -> (name: String)
    ensures
        name@ == detected_encoding(bytes@),
{
    guess_encoding(bytes)
}

/// The text of `bytes` decoded with the encoding named `encoding` (empty when
/// the name names no encoding).
pub fn decode_bytes(bytes: &[u8], encoding: &str) -> (text: String)
    ensures
        text@ == match encoding_for_label(encoding@) {
            Some(_) => decoded_text(encoding@, bytes@),
            None => Seq::empty(),
        },
{
    match decode_with_label(encoding, bytes) {
        Some(t) => t,
        None => String::new(),
    }
}

/// A file's text and the encoding guessed for its bytes.
pub fn decode_detected(bytes: &[u8]) -> (decoded: (String, String))
    ensures
        decoded.1@ == detected_encoding(bytes@),
        decoded.0@ == match encoding_for_label(detected_encoding(bytes@)) {
            Some(_) => decoded_text(detected_encoding(bytes@), bytes@),
            None => Seq::empty(),
        },
{
    let encoding = detect_encoding(bytes);
    let text = decode_bytes(bytes, encoding.as_str());
    (text, encoding)
}

/// The picker label `label` stands for the encoding named `name`: the two
/// are equal once ASCII letters are made lower case (`encoding_rs` names
/// `windows-1252` what the picker labels `Windows-1252`).
pub open spec fn label_names(label: Seq<char>, name: Seq<char>) -> bool {
    eq_ignore_ascii_case(label, name)
}

/// The position of the picker label that stands for the encoding named
/// `name`, if one does.
pub open spec fn supported_position(name: Seq<char>) -> Option<int> {
    if exists|i: int| 0 <= i < SUPPORTED_ENCODING_COUNT && label_names(supported_label(i), name) {
        Some(
            choose|i: int|
                0 <= i < SUPPORTED_ENCODING_COUNT && label_names(supported_label(i), name)
                    && forall|j: int| 0 <= j < i ==> !label_names(supported_label(j), name),
        )
    } else {
        None
    }
}

/// The picker position that "reload with the next encoding" moves to from a
/// tab whose encoding is named `current`: the one after the position of the
/// label that stands for `current`, or after the first when no label does,
/// wrapping around.
pub open spec fn next_encoding_index(current: Seq<char>) -> int {
    ((match supported_position(current) {
        Some(p) => p,
        None => 0,
    }) + 1) % (SUPPORTED_ENCODING_COUNT as int)
}

/// Whether the picker label `label` stands for the encoding named `name`.
pub fn label_names_encoding(label: &str, name: &str) -> (r: bool)
    ensures
        r == label_names(label@, name@),
{
    same_ignoring_ascii_case(&chars_of(label), &chars_of(name))
}

/// The picker position that follows the encoding named `current`.
pub fn next_reload_index(current: &str) -> (index: usize)
    ensures
        index == next_encoding_index(current@),
        index < SUPPORTED_ENCODING_COUNT,
{
    let mut i: usize = 0;
    let mut found: Option<usize> = None;
    while i < SUPPORTED_ENCODING_COUNT
        invariant
            i <= SUPPORTED_ENCODING_COUNT,
            found is None ==> forall|j: int|
                0 <= j < i ==> !label_names(supported_label(j), current@),
            found matches Some(f) ==> f < SUPPORTED_ENCODING_COUNT && label_names(
                supported_label(f as int),
                current@,
            ) && forall|j: int| 0 <= j < f ==> !label_names(supported_label(j), current@),
        decreases SUPPORTED_ENCODING_COUNT - i,
    {
        if found.is_none() {
            match supported_encoding(i) {
                Some(label) => {
                    if label_names_encoding(label, current) {
                        found = Some(i);
                    }
                },
                None => {},
            }
        }
        i = i + 1;
    }
    let position = match found {
        Some(f) => f,
        None => 0,
    };
    proof {
        match found {
            Some(f) => {
                assert(supported_position(current@) == Some(f as int));
            },
            None => {
                assert(supported_position(current@) is None);
            },
        }
    }
    (position + 1) % SUPPORTED_ENCODING_COUNT
}

/// The encoding (canonical name) that "reload with the next encoding" reads
/// the active file with, when the next picker label resolves.
pub fn next_reload_encoding(current: &str) -> (next: Option<String>)
    ensures
        next.deep_view() == encoding_for_label(supported_label(next_encoding_index(current@))),
{
    let index = next_reload_index(current);
    match supported_encoding(index) {
        Some(label) => encoding_from_label(label),
        None => None,
    }
}


/// No two picker labels are the same, even with ASCII case ignored.
proof fn lemma_labels_distinct()
    ensures
        forall|i: int, j: int|
            0 <= i < j < SUPPORTED_ENCODING_COUNT ==> !eq_ignore_ascii_case(
                #[trigger] supported_label(i),
                #[trigger] supported_label(j),
            ),
{
    reveal_strlit("UTF-8");
    reveal_strlit("UTF-16LE");
    reveal_strlit("UTF-16BE");
    reveal_strlit("GBK");
    reveal_strlit("GB18030");
    reveal_strlit("Big5");
    reveal_strlit("Shift_JIS");
    reveal_strlit("EUC-JP");
    reveal_strlit("EUC-KR");
    reveal_strlit("ISO-8859-1");
    reveal_strlit("ISO-8859-2");
    reveal_strlit("ISO-8859-5");
    reveal_strlit("ISO-8859-15");
    reveal_strlit("Windows-1252");
    reveal_strlit("Windows-1251");
    assert forall|i: int, j: int| 0 <= i < j < SUPPORTED_ENCODING_COUNT implies !eq_ignore_ascii_case(
        #[trigger] supported_label(i),
        #[trigger] supported_label(j),
    ) by {
        let a = supported_label(i);
        let b = supported_label(j);
        if a.len() == b.len() {
            if a.len() == 8 {
                assert(crate::names::ascii_lower(a[6]) != crate::names::ascii_lower(b[6]));
            } else if a.len() == 10 {
                assert(crate::names::ascii_lower(a[9]) != crate::names::ascii_lower(b[9]));
            } else if a.len() == 6 {
                assert(crate::names::ascii_lower(a[5]) != crate::names::ascii_lower(b[5]));
            } else if a.len() == 12 {
                assert(crate::names::ascii_lower(a[11]) != crate::names::ascii_lower(b[11]));
            }
        }
    }
}

/// Reloading with the next encoding steps through the picker in order: from
/// a tab in the encoding that the `i`-th label stands for (its name equals
/// the label up to ASCII case, as `encoding_rs`'s names do) it goes to the
/// label after it, from the last back to the first.
pub proof fn lemma_reload_cycles(i: int, name: Seq<char>)
    requires
        0 <= i < SUPPORTED_ENCODING_COUNT,
        label_names(supported_label(i), name),
    ensures
        next_encoding_index(name) == (i + 1) % (SUPPORTED_ENCODING_COUNT as int),
{
    lemma_labels_distinct();
    assert(0 <= i < SUPPORTED_ENCODING_COUNT && label_names(supported_label(i), name));
    assert forall|j: int| 0 <= j < SUPPORTED_ENCODING_COUNT && j != i implies !label_names(
        supported_label(j),
        name,
    ) by {
        if label_names(supported_label(j), name) {
            let a = supported_label(i);
            let b = supported_label(j);
            assert(eq_ignore_ascii_case(a, b));
            if j < i {
                assert(!eq_ignore_ascii_case(b, a));
            } else {
                assert(!eq_ignore_ascii_case(a, b));
            }
        }
    }
    let p = choose|k: int|
        0 <= k < SUPPORTED_ENCODING_COUNT && label_names(supported_label(k), name) && forall|j: int|
            0 <= j < k ==> !label_names(supported_label(j), name);
    assert(0 <= i < SUPPORTED_ENCODING_COUNT && label_names(supported_label(i), name) && forall|
        j: int,
    | 0 <= j < i ==> !label_names(supported_label(j), name));
    assert(p == i);
    assert(supported_position(name) == Some(i));
}

} // verus!
