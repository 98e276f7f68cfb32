use schnellui_widgets::color::Color;
use schnellui_widgets::svg::{parse_attrs, FillRule, TextAnchor};
use schnellui_widgets::svg_markup::{
    attr_value, gradient_index, next_svg_tag, parse_color_syntax, parse_fill_rule,
    parse_paint_syntax, parse_text_anchor, str_eq, svg_text_content, ColorSyntax, PaintSyntax,
    SvgTag, resolve_paint, PaintRef, ResolvedPaint,
};

fn all_tags(markup: &str) -> Vec<SvgTag<'_>> {
    let mut out = Vec::new();
    let mut pos = 0;
    while let Some((tag, next)) = next_svg_tag(markup, pos) {
        assert!(next > pos);
        out.push(tag);
        pos = next;
    }
    out
}

#[test]
fn tags_come_in_document_order_with_comments_and_declarations_skipped() {
    let doc = "<?xml version=\"1.0\"?><!DOCTYPE svg><svg viewBox=\"0 0 24 24\"><!-- <rect/> --><g fill=\"red\"><path d=\"M0 0\"/></g></svg>";
    let tags = all_tags(doc);
    assert_eq!(
        tags,
        vec![
            SvgTag::Open { name: "svg", attrs: " viewBox=\"0 0 24 24\"", self_closing: false },
            SvgTag::Open { name: "g", attrs: " fill=\"red\"", self_closing: false },
            SvgTag::Open { name: "path", attrs: " d=\"M0 0\"", self_closing: true },
            SvgTag::Close { name: "g" },
            SvgTag::Close { name: "svg" },
        ]
    );
}

#[test]
fn next_tag_resumes_right_after_the_closing_angle_bracket() {
    let doc = "ab<g>cd</g>";
    assert_eq!(next_svg_tag(doc, 0), Some((SvgTag::Open { name: "g", attrs: "", self_closing: false }, 5)));
    assert_eq!(next_svg_tag(doc, 5), Some((SvgTag::Close { name: "g" }, 11)));
    assert_eq!(next_svg_tag(doc, 11), None);
    assert_eq!(next_svg_tag(doc, 40), None);
}

#[test]
fn closing_tag_names_are_trimmed() {
    assert_eq!(next_svg_tag("</ g\t>", 0), Some((SvgTag::Close { name: "g" }, 6)));
}

#[test]
fn self_closing_ignores_trailing_white_space_but_slashes_stay_in_attributes_after_it() {
    // `trim_end_matches('/')` runs before trimming, so a slash followed by
    // white space stays in the attribute text
    assert_eq!(
        next_svg_tag("<rect x=\"1\" / >", 0),
        Some((SvgTag::Open { name: "rect", attrs: " x=\"1\" /", self_closing: true }, 15))
    );
    assert_eq!(
        next_svg_tag("<circle//>", 0),
        Some((SvgTag::Open { name: "circle", attrs: "", self_closing: true }, 10))
    );
}

#[test]
fn unicode_white_space_separates_the_name() {
    let doc = "<text\u{3000}x=\"1\">";
    assert_eq!(
        next_svg_tag(doc, 0),
        Some((SvgTag::Open { name: "text", attrs: "\u{3000}x=\"1\"", self_closing: false }, doc.len()))
    );
}

#[test]
fn unterminated_markup_ends_the_document() {
    assert_eq!(next_svg_tag("<svg><!-- never closed <g>", 5), None);
    assert_eq!(next_svg_tag("<!DOCTYPE", 0), None);
    assert_eq!(next_svg_tag("<svg", 0), None);
    assert_eq!(next_svg_tag("</svg", 0), None);
    assert_eq!(next_svg_tag("plain text", 0), None);
    assert_eq!(next_svg_tag("trailing <", 0), None);
}

#[test]
fn text_content_runs_to_the_closing_text_tag() {
    let doc = "<text x=\"1\">  Hi there </text>";
    let (_, next) = next_svg_tag(doc, 0).unwrap();
    assert_eq!(next, 12);
    assert_eq!(svg_text_content(doc, next), ("Hi there", 23));
    assert_eq!(next_svg_tag(doc, 23), Some((SvgTag::Close { name: "text" }, doc.len())));
}

#[test]
fn text_content_without_a_closing_tag_is_empty_and_stays_put() {
    let doc = "<text>dangling";
    assert_eq!(svg_text_content(doc, 6), ("", 6));
}

#[test]
fn string_equality_compares_characters() {
    assert!(str_eq("fill", "fill"));
    assert!(!str_eq("fill", "Fill"));
    assert!(!str_eq("fill", "fil"));
    assert!(str_eq("", ""));
}

#[test]
fn attribute_lookup_takes_the_first_match() {
    let attrs = parse_attrs(" fill=\"red\" stroke='blue' fill=\"green\"");
    assert_eq!(attr_value(&attrs, "fill"), Some("red"));
    assert_eq!(attr_value(&attrs, "stroke"), Some("blue"));
    assert_eq!(attr_value(&attrs, "opacity"), None);
}

#[test]
fn keyword_attributes_match_exactly() {
    assert_eq!(parse_fill_rule("evenodd"), Some(FillRule::EvenOdd));
    assert_eq!(parse_fill_rule("nonzero"), Some(FillRule::NonZero));
    assert_eq!(parse_fill_rule(" evenodd"), None);
    assert_eq!(parse_text_anchor("start"), Some(TextAnchor::Start));
    assert_eq!(parse_text_anchor("middle"), Some(TextAnchor::Middle));
    assert_eq!(parse_text_anchor("end"), Some(TextAnchor::End));
    assert_eq!(parse_text_anchor("End"), None);
}

#[test]
fn gradient_references_resolve_to_the_first_id() {
    let ids = vec!["a".to_string(), "".to_string(), "b".to_string(), "a".to_string()];
    assert_eq!(gradient_index(&ids, "a"), Some(0));
    assert_eq!(gradient_index(&ids, "b"), Some(2));
    assert_eq!(gradient_index(&ids, ""), Some(1));
    assert_eq!(gradient_index(&ids, "c"), None);
}

#[test]
fn hex_colours_of_three_and_six_digits() {
    assert_eq!(parse_color_syntax("#fff"), ColorSyntax::Solid(Color::rgb(255, 255, 255)));
    assert_eq!(parse_color_syntax("#1A2"), ColorSyntax::Solid(Color::rgb(0x11, 0xaa, 0x22)));
    assert_eq!(parse_color_syntax("  #1a2b3c\n"), ColorSyntax::Solid(Color::rgb(0x1a, 0x2b, 0x3c)));
    // `from_str_radix` accepts one leading `+`
    assert_eq!(parse_color_syntax("#+ab"), ColorSyntax::Solid(Color::rgb(0x00, 0xaa, 0xbb)));
    assert_eq!(parse_color_syntax("#+12ab"), ColorSyntax::Invalid);
    assert_eq!(parse_color_syntax("#12345"), ColorSyntax::Invalid);
    assert_eq!(parse_color_syntax("#ggg"), ColorSyntax::Invalid);
    assert_eq!(parse_color_syntax("#-12"), ColorSyntax::Invalid);
    assert_eq!(parse_color_syntax("#"), ColorSyntax::Invalid);
}

#[test]
fn named_colours_ignore_ascii_case() {
    assert_eq!(parse_color_syntax("none"), ColorSyntax::NoColor);
    assert_eq!(parse_color_syntax(" NoNe "), ColorSyntax::NoColor);
    assert_eq!(parse_color_syntax("Grey"), ColorSyntax::Solid(Color::rgb(0x80, 0x80, 0x80)));
    assert_eq!(parse_color_syntax("currentColor"), ColorSyntax::Solid(Color::rgb(0, 0, 0)));
    assert_eq!(parse_color_syntax("orange"), ColorSyntax::Solid(Color::rgb(0xff, 0xa5, 0x00)));
    assert_eq!(parse_color_syntax("green"), ColorSyntax::Solid(Color::rgb(0x00, 0x80, 0x00)));
    assert_eq!(parse_color_syntax("teal"), ColorSyntax::Invalid);
}

#[test]
fn functional_colours_hand_back_their_arguments() {
    assert_eq!(parse_color_syntax("rgb(1, 2, 3)"), ColorSyntax::Functional("1, 2, 3)"));
    assert_eq!(parse_color_syntax("rgba(1,2,3,0.5)"), ColorSyntax::Functional("1,2,3,0.5)"));
    // the prefix is case-sensitive, so this reads as a (missing) name
    assert_eq!(parse_color_syntax("RGB(1,2,3)"), ColorSyntax::Invalid);
}

#[test]
fn paints_are_gradient_references_or_colours() {
    assert_eq!(parse_paint_syntax("url(#grad)"), PaintSyntax::Url("grad"));
    assert_eq!(parse_paint_syntax("  url( '#grad' ) "), PaintSyntax::Url("grad"));
    assert_eq!(parse_paint_syntax("url(\"##g\"))"), PaintSyntax::Url("g"));
    assert_eq!(parse_paint_syntax("none"), PaintSyntax::Color(ColorSyntax::NoColor));
    assert_eq!(parse_paint_syntax("#000"), PaintSyntax::Color(ColorSyntax::Solid(Color::rgb(0, 0, 0))));
    assert_eq!(parse_paint_syntax("URL(#g)"), PaintSyntax::Color(ColorSyntax::Invalid));
}

#[test]
fn short_hex_equals_the_long_form_with_doubled_digits() {
    assert_eq!(parse_color_syntax("#a3F"), parse_color_syntax("#aa33FF"));
    assert_eq!(parse_color_syntax("#a3F"), ColorSyntax::Solid(Color::rgb(0xaa, 0x33, 0xff)));
}

#[test]
fn paints_resolve_to_the_first_gradient_and_dangling_urls_paint_black() {
    let ids = vec!["a".to_string(), "b".to_string(), "a".to_string()];
    let red = Color::rgb(255, 0, 0);
    assert_eq!(resolve_paint(&Some(PaintRef::Solid(red)), &ids), Some(ResolvedPaint::Solid(red)));
    assert_eq!(
        resolve_paint(&Some(PaintRef::Url("a".to_string())), &ids),
        Some(ResolvedPaint::Gradient(0))
    );
    assert_eq!(
        resolve_paint(&Some(PaintRef::Url("b".to_string())), &ids),
        Some(ResolvedPaint::Gradient(1))
    );
    assert_eq!(
        resolve_paint(&Some(PaintRef::Url("missing".to_string())), &ids),
        Some(ResolvedPaint::Solid(Color::black()))
    );
    assert_eq!(resolve_paint(&None, &ids), None);
}
