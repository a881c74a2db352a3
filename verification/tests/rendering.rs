use cocotte::get_format;
use cocotte::hex_byte;
use cocotte::hex_digit;
use cocotte::wrap_ninetieths;

use palette::FromColor;

#[test]
fn format_templates() {
    assert_eq!(
        get_format(Some("iterm_bg")),
        "\x1b]1337;SetColors=bg={{hex2 red}}{{ hex2 green}}{{ hex2 blue}}\x07"
    );
    assert_eq!(
        get_format(Some("iterm_tab")),
        "\x1b]6;1;bg;red;brightness;{{ red }}\x07\x1b]6;1;bg;green;brightness;{{ green }}\x07\x1b]6;1;bg;blue;brightness;{{ blue }}\x07"
    );
    assert_eq!(
        get_format(Some("html")),
        "{{hue}} {{ red }} {{green }} {{ blue }} <div style='background-color: #{{hex2 red}}{{hex2 green}}{{hex2 blue}};'>{{ hue }} {{red}} {{green}} {{blue}} {{source}}</div>\n"
    );
    // Any unknown flag falls back to the HTML swatch as well.
    assert_eq!(get_format(Some("plain")), get_format(Some("html")));
    assert_eq!(
        get_format(None),
        "<div style='background-color: 0x{{hex2 red}}{{hex2 green}}{{hex2 blue}};'>{{ hue }}, {{red}} {{green}} {{blue}} {{source}}</div>\n"
    );
}

#[test]
fn hex_digits() {
    assert_eq!(hex_digit(0), '0');
    assert_eq!(hex_digit(9), '9');
    assert_eq!(hex_digit(10), 'A');
    assert_eq!(hex_digit(15), 'F');
    assert_eq!(hex_byte(0), ('0', '0'));
    assert_eq!(hex_byte(10), ('0', 'A'));
    assert_eq!(hex_byte(0xAB), ('A', 'B'));
    assert_eq!(hex_byte(255), ('F', 'F'));
}

#[test]
fn wrap_policy() {
    assert_eq!(wrap_ninetieths(0), 0);
    assert_eq!(wrap_ninetieths(32400), 0);
    // 400 degrees wraps to 40 degrees.
    assert_eq!(wrap_ninetieths(400 * 90), 40 * 90);
    // -10 degrees wraps to 350 degrees.
    assert_eq!(wrap_ninetieths(-10 * 90), 350 * 90);
    assert_eq!(wrap_ninetieths(31500 + 26 * 35), 10);
}

/// The hex color of a hue given in ninetieths of a degree, after the wrap
/// policy, at full saturation and half lightness.
fn hex_of_hue(scaled: i64) -> String {
    let wrapped = wrap_ninetieths(scaled);
    let degrees = wrapped as f32 / 90.0;
    let hsl = palette::Hsl::new_srgb(degrees, 1.0f32, 0.5f32);
    let rgb = palette::Srgb::from_color(hsl).into_format::<u8>();
    let (rh, rl) = hex_byte(rgb.red);
    let (gh, gl) = hex_byte(rgb.green);
    let (bh, bl) = hex_byte(rgb.blue);
    [rh, rl, gh, gl, bh, bl].iter().collect()
}

#[test]
fn rendering_round_trip_is_stable() {
    // The conversion chain is stable, and out-of-range hues go through
    // the explicit wrap policy; channel values are 8-bit by construction.
    for &scaled in &[0i64, 350 * 90, 400 * 90, -10 * 90, 32410, 1234567] {
        assert_eq!(hex_of_hue(scaled), hex_of_hue(scaled));
    }
    // Hue 0 at full saturation and half lightness is pure red.
    assert_eq!(hex_of_hue(0), "FF0000");
    // 400 degrees and 40 degrees render the same color.
    assert_eq!(hex_of_hue(400 * 90), hex_of_hue(40 * 90));
    // -10 degrees and 350 degrees render the same color.
    assert_eq!(hex_of_hue(-10 * 90), hex_of_hue(350 * 90));
}
