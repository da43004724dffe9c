use saba_core::error::Error;
use saba_core::renderer::dom::node::{Element, NodeKind};
use saba_core::renderer::layout::computed_style::{
    block_level_tag, Color, ComputedStyle, DisplayType, FontSize, TextDecoration,
};

#[test]
fn test_colours_by_name() {
    assert_eq!(Color::from_name(&"white".to_string()), Ok(Color::white()));
    assert_eq!(Color::from_name(&"black".to_string()), Ok(Color::black()));
    assert_eq!(
        Color::from_name(&"orange".to_string()).unwrap().code_u32(),
        0xffa500
    );
    assert_eq!(
        Color::from_name(&"lightgray".to_string()).unwrap().code_u32(),
        0xd3d3d3
    );
    assert_eq!(
        Color::from_name(&"Red".to_string()),
        Err(Error::UnexpectedInput(
            "color name Red is not supported yet".to_string()
        ))
    );
}

#[test]
fn test_colours_by_code() {
    assert_eq!(
        Color::from_code(&"#ff0000".to_string()).unwrap().code_u32(),
        0xff0000
    );
    assert_eq!(
        Color::from_code(&"#12aBcD".to_string()).unwrap().code_u32(),
        0x12abcd
    );
    assert_eq!(Color::white().code_u32(), 0xffffff);
    assert_eq!(Color::black().code_u32(), 0);
    for bad in ["ff0000", "#ff000", "#ff00000", "#ff00g0", "", "#"] {
        assert_eq!(
            Color::from_code(&bad.to_string()),
            Err(Error::UnexpectedInput(format!(
                "invalid color code {}",
                bad
            )))
        );
    }
}

#[test]
fn test_display_by_keyword() {
    assert_eq!(
        DisplayType::from_str(&"block".to_string()),
        Ok(DisplayType::Block)
    );
    assert_eq!(
        DisplayType::from_str(&"inline".to_string()),
        Ok(DisplayType::Inline)
    );
    assert_eq!(
        DisplayType::from_str(&"none".to_string()),
        Ok(DisplayType::DisplayNone)
    );
    assert_eq!(
        DisplayType::from_str(&"flex".to_string()),
        Err(Error::UnexpectedInput(
            "display flex is not supported yet".to_string()
        ))
    );
}

#[test]
fn test_the_default_display_is_read_from_the_table() {
    for tag in ["body", "h1", "h2", "p"] {
        assert!(block_level_tag(&tag.to_string()));
        assert_eq!(
            DisplayType::default(&NodeKind::Element(Element::new(tag, Vec::new()))),
            DisplayType::Block
        );
    }
    for tag in ["a", "html", "head", "div", "span", "script", "style", "P"] {
        assert!(!block_level_tag(&tag.to_string()));
        assert_eq!(
            DisplayType::default(&NodeKind::Element(Element::new(tag, Vec::new()))),
            DisplayType::Inline
        );
    }
    assert_eq!(
        DisplayType::default(&NodeKind::Text("p".to_string())),
        DisplayType::Inline
    );
    assert_eq!(DisplayType::default(&NodeKind::Document), DisplayType::Block);
}

#[test]
fn test_defaulting_takes_inherited_properties_from_the_parent() {
    let mut parent = ComputedStyle::new();
    parent.set_color(Color::from_name(&"red".to_string()).unwrap());
    parent.set_background_color(Color::from_name(&"blue".to_string()).unwrap());
    parent.set_display(DisplayType::Block);
    parent.set_font_size(FontSize::XXLarge);
    parent.set_text_decoration(TextDecoration::Underline);
    parent.set_height(7);
    parent.set_width(9);
    assert!(parent.resolved());

    let node = NodeKind::Element(Element::new("a", Vec::new()));
    let mut child = ComputedStyle::new();
    child.defaulting(&node, Some(parent));
    let mut expected = ComputedStyle::new();
    expected.set_color(Color::from_name(&"red".to_string()).unwrap());
    expected.set_background_color(Color::white());
    expected.set_display(DisplayType::Inline);
    expected.set_font_size(FontSize::XXLarge);
    expected.set_text_decoration(TextDecoration::Underline);
    expected.set_height(0);
    expected.set_width(0);
    assert_eq!(child, expected);

    let mut own = ComputedStyle::new();
    own.set_color(Color::white());
    own.set_font_size(FontSize::XLarge);
    own.set_display(DisplayType::Block);
    own.defaulting(&node, Some(parent));
    assert_eq!(own.color(), Color::white());
    assert_eq!(own.font_size(), FontSize::XLarge);
    assert_eq!(own.display(), DisplayType::Block);
    assert_eq!(own.text_decoration(), TextDecoration::Underline);

    let mut root = ComputedStyle::new();
    root.defaulting(&NodeKind::Element(Element::new("body", Vec::new())), None);
    assert_eq!(root.color(), Color::black());
    assert_eq!(root.background_color(), Color::white());
    assert_eq!(root.display(), DisplayType::Block);
    assert_eq!(root.font_size(), FontSize::Medium);
    assert_eq!(root.text_decoration(), TextDecoration::NoDecoration);
}

#[test]
fn test_font_ratios() {
    assert_eq!(FontSize::Medium.ratio(), 1);
    assert_eq!(FontSize::XLarge.ratio(), 2);
    assert_eq!(FontSize::XXLarge.ratio(), 3);
}
