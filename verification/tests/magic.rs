use c2pa_font_handler::error::FontIoError;
use c2pa_font_handler::magic::Magic;

#[test]
fn test_magic_from_u32() {
    let magic = Magic::try_from(0x00010000).unwrap();
    assert_eq!(magic as u32, Magic::TrueType as u32);

    let magic = Magic::try_from(0x4f54544f).unwrap();
    assert_eq!(magic as u32, Magic::OpenType as u32);

    let magic = Magic::try_from(0x74797031).unwrap();
    assert_eq!(magic as u32, Magic::PostScriptType1 as u32);

    let magic = Magic::try_from(0x74727565).unwrap();
    assert_eq!(magic as u32, Magic::AppleTrue as u32);

    let magic = Magic::try_from(0x774f4646).unwrap();
    assert_eq!(magic as u32, Magic::Woff as u32);

    let magic = Magic::try_from(0x774f4632).unwrap();
    assert_eq!(magic as u32, Magic::Woff2 as u32);
}

#[test]
fn test_magic_try_from_u32_with_bad_value() {
    let magic = Magic::try_from(0x00000000);
    assert!(magic.is_err());
    let err = magic.err().unwrap();
    assert!(matches!(err, FontIoError::UnknownMagic(0)));
}

#[test]
fn magic_value_round_trips() {
    for v in [0x4f54544fu32, 0x00010000, 0x74797031, 0x74727565, 0x774f4646, 0x774f4632] {
        assert_eq!(Magic::try_from(v).unwrap().value(), v);
    }
    assert_eq!(Magic::OpenType.value(), 0x4f54544f);
}
