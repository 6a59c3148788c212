use markcat::text::{
    chars_of, collect, collect_lower, is_whitespace, lower_text, rfind, to_lower, trim_bounds,
    trim_text,
};

#[test]
fn is_whitespace_agrees_with_std_on_every_char() {
    let mut code: u32 = 0;
    while code <= 0x10FFFF {
        if let Some(c) = char::from_u32(code) {
            assert_eq!(is_whitespace(c), c.is_whitespace(), "U+{code:04X}");
        }
        code += 1;
    }
}

#[test]
fn to_lower_agrees_with_std_on_every_char() {
    let mut code: u32 = 0;
    while code <= 0x10FFFF {
        if let Some(c) = char::from_u32(code) {
            assert_eq!(to_lower(c), c.to_ascii_lowercase(), "U+{code:04X}");
        }
        code += 1;
    }
}

#[test]
fn to_lower_maps_only_ascii_capitals() {
    assert_eq!(to_lower('A'), 'a');
    assert_eq!(to_lower('Z'), 'z');
    assert_eq!(to_lower('m'), 'm');
    assert_eq!(to_lower('@'), '@');
    assert_eq!(to_lower('['), '[');
    assert_eq!(to_lower('É'), 'É');
    assert_eq!(to_lower('\u{212A}'), '\u{212A}');
}

#[test]
fn chars_of_gives_each_char_in_order() {
    assert_eq!(chars_of(""), Vec::<char>::new());
    assert_eq!(chars_of("a,b"), vec!['a', ',', 'b']);
    assert_eq!(chars_of("é✓x"), vec!['é', '✓', 'x']);
}

#[test]
fn collect_takes_the_range() {
    let chars = chars_of("Hello, World");
    assert_eq!(collect(&chars, 0, 5), "Hello");
    assert_eq!(collect(&chars, 7, 12), "World");
    assert_eq!(collect(&chars, 3, 3), "");
    assert_eq!(collect_lower(&chars, 0, 12), "hello, world");
    assert_eq!(collect_lower(&chars, 7, 8), "w");
}

#[test]
fn trim_bounds_of_a_range() {
    let chars = chars_of("a,  b c \t,d");
    assert_eq!(trim_bounds(&chars, 2, 9), (4, 7));
    assert_eq!(trim_bounds(&chars, 0, 1), (0, 1));
    assert_eq!(trim_bounds(&chars, 2, 4), (4, 4));
    assert_eq!(trim_bounds(&chars, 5, 5), (5, 5));
}

#[test]
fn trim_text_strips_both_ends() {
    assert_eq!(trim_text("  hi  \n"), "hi");
    assert_eq!(trim_text("\t\r\n a b \u{a0}\u{3000}"), "a b");
    assert_eq!(trim_text("hi"), "hi");
    assert_eq!(trim_text(""), "");
    assert_eq!(trim_text(" \n\t "), "");
    assert_eq!(trim_text("\u{200b}x\u{200b}"), "\u{200b}x\u{200b}");
}

#[test]
fn trim_text_agrees_with_std() {
    let samples = [
        "",
        " ",
        "a",
        " a",
        "a ",
        "  a  b  ",
        "\n\nfn main() {}\n\n",
        "\u{2028}x\u{2029}",
        "\u{1680}\u{2000}\u{200a}y\u{202f}\u{205f}\u{85}",
        "\u{b}\u{c}z\u{b}\u{c}",
        "é ",
    ];
    for s in samples {
        assert_eq!(trim_text(s), s.trim(), "{s:?}");
    }
}

#[test]
fn trimming_twice_is_trimming_once() {
    let samples = ["  hi  \n", "", "   ", "a  b", "\t x \t y \t"];
    for s in samples {
        let once = trim_text(s);
        let twice = trim_text(&once);
        assert_eq!(twice, once, "{s:?}");
    }
}

#[test]
fn lower_text_folds_ascii_only() {
    assert_eq!(lower_text("README.MD"), "readme.md");
    assert_eq!(lower_text("NoExt"), "noext");
    assert_eq!(lower_text("ÀB1_z"), "Àb1_z");
    assert_eq!(lower_text(""), "");
}

#[test]
fn rfind_gives_the_last_position() {
    let chars = chars_of("a/b.c/d.e.f");
    assert_eq!(rfind(&chars, 0, chars.len(), '/'), Some(5));
    assert_eq!(rfind(&chars, 0, chars.len(), '.'), Some(9));
    assert_eq!(rfind(&chars, 0, 5, '.'), Some(3));
    assert_eq!(rfind(&chars, 0, 3, '.'), None);
    assert_eq!(rfind(&chars, 6, 9, '/'), None);
    assert_eq!(rfind(&chars, 4, 4, 'c'), None);
    assert_eq!(rfind(&chars, 0, chars.len(), 'x'), None);
}
