use schnellui_widgets::color::Color;
use schnellui_widgets::svg::{drain_svg_rasters, pending_svg_rasters, SvgFinished, SvgRasterBook, make_alpha_mask, parse_attrs, svg_cache_stats, FillRule, Svg, SvgCacheKey, SvgCacheStats, TextAnchor};
use schnellui_widgets::semantics::{Role, WidgetKind};
use schnellui_widgets::theme::{
    interaction_style, ComponentInteractions, InteractionComponent, InteractionState,
    InteractionStates, InteractionStyle,
};

#[test]
fn interaction_channels_and_component_overrides_resolve_independently() {
    let accent = Color::rgb(10, 20, 200);
    let focus_color = Color::rgb(0, 0, 120);
    let global = InteractionStates {
        hover: InteractionStyle::all(Color::rgb(1, 1, 1), Color::rgb(2, 2, 2), Color::rgb(3, 3, 3)),
        focus: InteractionStyle::border(accent),
        active: InteractionStyle::background(Color::rgb(5, 5, 5)),
    };
    let button = InteractionStates {
        hover: InteractionStyle::foreground(Color::rgb(1, 2, 3)),
        focus: InteractionStyle::background(Color::rgb(4, 5, 6)),
        active: InteractionStyle::border(Color::rgb(7, 8, 9)),
    };
    let overrides = ComponentInteractions {
        button: Some(button),
        ..ComponentInteractions::default()
    };
    let style = |component, state| interaction_style(global, overrides, accent, focus_color, component, state);
    assert_eq!(style(InteractionComponent::Button, InteractionState::Hover), button.hover);
    assert_eq!(style(InteractionComponent::Button, InteractionState::Focus), button.focus);
    assert_eq!(style(InteractionComponent::Button, InteractionState::Active), button.active);
    assert_eq!(
        style(InteractionComponent::RawSurface, InteractionState::Hover),
        InteractionStyle::none()
    );
    // an editable keeps only the hover border, and an accent focus border
    // becomes the accessible focus colour
    assert_eq!(
        style(InteractionComponent::Editable, InteractionState::Hover),
        InteractionStyle::border(Color::rgb(3, 3, 3))
    );
    assert_eq!(
        style(InteractionComponent::Toggle, InteractionState::Focus),
        InteractionStyle::border(focus_color)
    );
    assert_eq!(
        style(InteractionComponent::Editable, InteractionState::Active),
        InteractionStyle::none()
    );
}

#[test]
fn svg_widget_emits_image_quad_with_alt_name_and_hover_text() {
    let svg = Svg::new("<svg/>").alt("logo").cache(SvgCacheKey::new("lib", "logo", "filled"));
    assert_eq!(svg.role(), Role::Image);
    assert_eq!(svg.kind(), WidgetKind::Image);
    assert_eq!(svg.alt.as_deref(), Some("logo"));
    assert_eq!(svg.cache_key.as_ref().unwrap().variant, "filled");
    assert_eq!(svg.tint, Color::white());
    assert!(!svg.mask);
}

#[test]
fn themed_svg_masks_and_uses_the_text_token() {
    let svg = Svg::new("<svg/>").themed();
    assert!(svg.mask && svg.theme_tint);
    let tinted = svg.tint(Color::rgb(1, 2, 3));
    assert!(!tinted.theme_tint && tinted.mask);
    assert_eq!(tinted.tint, Color::rgb(1, 2, 3));
    assert!(Svg::new("<svg/>").mask().mask);
}

#[test]
fn cache_stats_count_each_cache_and_an_unreadable_one_as_empty() {
    assert_eq!(
        svg_cache_stats(Some(2), None),
        SvgCacheStats { parsed_documents: 2, rasterized_images: 0 }
    );
    assert_eq!(FillRule::default(), FillRule::NonZero);
    assert_eq!(TextAnchor::default(), TextAnchor::Start);
}

#[test]
fn tag_attributes_parse_in_order_and_skip_malformed_pairs() {

    let attrs = parse_attrs("width=\"24\" height='10' bare x = \"1\" y=2 z=\"open");
    assert_eq!(attrs, vec![("width", "24"), ("height", "10"), ("x", "1"), ("z", "open")]);
    assert!(parse_attrs("   ").is_empty());
    assert_eq!(parse_attrs("fill=\"café\""), vec![("fill", "café")]);
}

#[test]
fn alpha_mask_whitens_colour_and_keeps_coverage() {
    let mut pixels = vec![1u8, 2, 3, 4, 5, 6, 7, 8, 9, 10];
    make_alpha_mask(&mut pixels);
    assert_eq!(pixels, vec![255, 255, 255, 4, 255, 255, 255, 8, 9, 10]);
    let mut empty: Vec<u8> = Vec::new();
    make_alpha_mask(&mut empty);
    assert!(empty.is_empty());
}

#[test]
fn stale_rasters_from_a_prior_mount_are_drained_but_never_land() {
    let mut book = SvgRasterBook::new();
    let stamp = book.submit();
    assert_eq!(stamp, 0);
    assert_eq!(pending_svg_rasters(&book), 1);
    // remount semantics: the in-flight raster is now stale
    book.remount();
    let land = drain_svg_rasters(&mut book, &[SvgFinished { generation: stamp, widget_alive: true }]);
    assert_eq!(land, vec![false]);
    assert_eq!(pending_svg_rasters(&book), 0);
}

#[test]
fn current_rasters_land_only_on_live_widgets() {
    let mut book = SvgRasterBook::new();
    book.remount();
    let a = book.submit();
    let b = book.submit();
    assert_eq!((a, b), (1, 1));
    let land = drain_svg_rasters(
        &mut book,
        &[
            SvgFinished { generation: 1, widget_alive: true },
            SvgFinished { generation: 1, widget_alive: false },
        ],
    );
    assert_eq!(land, vec![true, false]);
    assert_eq!(pending_svg_rasters(&book), 0);
    // with nothing in flight nothing is accounted
    let land = drain_svg_rasters(&mut book, &[SvgFinished { generation: 1, widget_alive: true }]);
    assert_eq!(land, vec![false]);
    assert_eq!(book, SvgRasterBook { generation: 1, pending: 0 });
}
