use icu::normalization::Normalizer;
use icu::normalization::Type;

#[test]
fn is_nfc_normalized() {
    // Not opting into the bound trait; only use the form type directly.
    assert_eq!(Type::NFC.is_normalized(&"Hello World"), true);

    // Using the bound trait.
    assert_eq!("Hello World".is_normalized(Type::NFC), true);
    assert_eq!("Hello World".chars().as_str().is_normalized(Type::NFC), true);
}

#[test]
fn other_forms_reject() {
    assert_eq!(Type::NFKC.is_normalized(&"Hello World"), false);
    assert_eq!(Type::NFD.is_normalized(&"Hello World"), false);
    assert_eq!(Type::NFKD.is_normalized(&"Hello World"), false);
    assert_eq!("Hello World".is_normalized(Type::NFD), false);
}

#[test]
fn owned_string_normalizer() {
    let s = String::from("Hello World");
    assert_eq!(s.is_normalized(Type::NFC), true);
    assert_eq!(s.is_normalized(Type::NFKD), false);
}

#[test]
fn is_normalized_icu_over_utf16() {
    let v: Vec<u16> = vec![65, 0xD801, 0xDC37, 66];
    assert_eq!(Type::NFC.is_normalized_icu(v.as_slice()), true);
    assert_eq!(Type::NFD.is_normalized_icu(v.as_slice()), false);
}
