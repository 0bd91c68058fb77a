use rustserver::color::{CCTweakedColor, CCTweakedColorConversionError, Color};

#[test]
fn palette_colors_convert() {
    assert_eq!(CCTweakedColor::try_from(Color::White), Ok(CCTweakedColor::White));
    assert_eq!(CCTweakedColor::try_from(Color::Black), Ok(CCTweakedColor::Black));
    assert_eq!(CCTweakedColor::try_from(Color::Red), Ok(CCTweakedColor::Red));
    assert_eq!(CCTweakedColor::try_from(Color::LightBlue), Ok(CCTweakedColor::LightBlue));
    assert_eq!(CCTweakedColor::try_from(Color::Gray), Ok(CCTweakedColor::Gray));
    assert_eq!(CCTweakedColor::try_from(Color::Magenta), Ok(CCTweakedColor::Magenta));
}

#[test]
fn other_colors_do_not_convert() {
    assert_eq!(
        CCTweakedColor::try_from(Color::Reset),
        Err(CCTweakedColorConversionError(Color::Reset))
    );
    assert_eq!(
        CCTweakedColor::try_from(Color::LightRed),
        Err(CCTweakedColorConversionError(Color::LightRed))
    );
    assert_eq!(
        CCTweakedColor::try_from(Color::Rgb(1, 2, 3)),
        Err(CCTweakedColorConversionError(Color::Rgb(1, 2, 3)))
    );
}
