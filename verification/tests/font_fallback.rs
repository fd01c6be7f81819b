use agent_terminal::font_fallback::{
    conservative_fallback_families, consider_face, count_glyph_hits, face_style_tie_breaker,
    family_name_score, font_fallback_families, glyph_coverage_score,
    merge_font_fallback_families, preferred_family_name, push_unique_family, ranked_families,
    terminal_symbol_coverage_score, upsert_candidate, FontCandidate, FontFace, GlyphCoverageHits,
};

#[test]
fn merge_font_fallback_families_keeps_user_fonts_first_and_dedupes() {
    let raw = vec![
        " Hack Nerd Font Mono ".to_string(),
        "Apple Color Emoji".to_string(),
        "hack nerd font mono".to_string(),
    ];
    let merged = merge_font_fallback_families(
        &raw,
        vec!["Apple Color Emoji".to_string(), "Symbols Nerd Font Mono".to_string()],
    );

    assert_eq!(
        merged,
        vec![
            "Hack Nerd Font Mono".to_string(),
            "Apple Color Emoji".to_string(),
            "Symbols Nerd Font Mono".to_string(),
        ]
    );
}

#[test]
fn family_name_score_prioritizes_terminal_symbol_fonts() {
    assert!(
        family_name_score("JetBrainsMono Nerd Font Mono", true)
            > family_name_score("Helvetica", false)
    );
    assert!(family_name_score("Apple Color Emoji", false) > family_name_score("Arial", false));
    assert!(family_name_score("SF Symbols", false) > family_name_score("Times", false));
}

#[test]
fn terminal_symbol_coverage_score_rejects_cjk_text_fonts() {
    let cjk_font_with_symbol_coverage =
        GlyphCoverageHits { pua: 0, emoji: 0, symbol: 7, cjk_text: 1 };
    assert_eq!(terminal_symbol_coverage_score(cjk_font_with_symbol_coverage), None);
}

#[test]
fn terminal_symbol_coverage_score_keeps_symbol_only_fonts() {
    let symbol_font = GlyphCoverageHits { pua: 1, emoji: 0, symbol: 2, cjk_text: 0 };
    assert_eq!(terminal_symbol_coverage_score(symbol_font), Some((130, 102)));
}

#[test]
fn font_fallbacks_keep_user_fonts_first_and_deduped() {
    let fallback_list = font_fallback_families(
        &[
            "Custom Symbols".to_string(),
            "Apple Color Emoji".to_string(),
            "custom symbols".to_string(),
        ],
        None,
    );

    assert_eq!(fallback_list.first().map(String::as_str), Some("Custom Symbols"));
    assert_eq!(fallback_list.get(1).map(String::as_str), Some("Apple Color Emoji"));
    assert_eq!(
        fallback_list
            .iter()
            .filter(|font| font.eq_ignore_ascii_case("Custom Symbols"))
            .count(),
        1
    );
}

#[test]
fn a_scan_that_is_done_takes_the_place_of_the_usual_fonts() {
    let discovered = vec!["Found Symbols".to_string()];
    assert_eq!(font_fallback_families(&[], Some(discovered)), vec!["Found Symbols".to_string()]);
    assert_eq!(font_fallback_families(&[], None), conservative_fallback_families());
}

#[test]
fn blank_names_are_no_names() {
    let raw = vec!["  ".to_string(), " A ".to_string(), "a".to_string()];
    assert_eq!(merge_font_fallback_families(&raw, vec![]), vec!["A".to_string()]);
    let mut families = vec!["A".to_string()];
    push_unique_family(&mut families, "a");
    push_unique_family(&mut families, "B");
    assert_eq!(families, vec!["A".to_string(), "B".to_string()]);
}

fn put(bytes: &mut Vec<u8>, value: u32, len: usize) {
    bytes.extend_from_slice(&value.to_be_bytes()[4 - len..]);
}

/// A font that maps each of the given characters to a glyph and has no outlines.
fn font_with(chars: &[char]) -> Vec<u8> {
    let mut head = vec![0u8; 54];
    head[0..4].copy_from_slice(&[0, 1, 0, 0]);
    head[12..16].copy_from_slice(&[0x5f, 0x0f, 0x3c, 0xf5]);
    head[18..20].copy_from_slice(&[0x03, 0xe8]);
    let mut hhea = vec![0u8; 36];
    hhea[0..4].copy_from_slice(&[0, 1, 0, 0]);
    hhea[35] = 1;
    let maxp = vec![0x00, 0x00, 0x50, 0x00, 0x00, 0xff];

    let mut sorted: Vec<char> = chars.to_vec();
    sorted.sort();
    let mut cmap = Vec::new();
    put(&mut cmap, 0, 2);
    put(&mut cmap, 1, 2);
    put(&mut cmap, 3, 2);
    put(&mut cmap, 10, 2);
    put(&mut cmap, 12, 4);
    put(&mut cmap, 12, 2);
    put(&mut cmap, 0, 2);
    put(&mut cmap, 16 + 12 * sorted.len() as u32, 4);
    put(&mut cmap, 0, 4);
    put(&mut cmap, sorted.len() as u32, 4);
    for (index, ch) in sorted.iter().enumerate() {
        put(&mut cmap, *ch as u32, 4);
        put(&mut cmap, *ch as u32, 4);
        put(&mut cmap, index as u32 + 1, 4);
    }

    let tables: Vec<(&[u8], Vec<u8>)> =
        vec![(b"cmap", cmap), (b"head", head), (b"hhea", hhea), (b"maxp", maxp)];
    let mut font = Vec::new();
    put(&mut font, 0x0001_0000, 4);
    put(&mut font, tables.len() as u32, 2);
    put(&mut font, 0, 2);
    put(&mut font, 0, 2);
    put(&mut font, 0, 2);
    let mut offset = 12 + 16 * tables.len();
    for (tag, data) in &tables {
        font.extend_from_slice(tag);
        put(&mut font, 0, 4);
        put(&mut font, offset as u32, 4);
        put(&mut font, data.len() as u32, 4);
        offset += data.len();
    }
    for (_, data) in &tables {
        font.extend_from_slice(data);
    }
    font
}

#[test]
fn glyphs_of_a_font_are_counted() {
    let font = font_with(&['\u{e0b0}', '✓', 'A']);
    assert_eq!(count_glyph_hits(&font, 0, &['A', 'B', '✓', 'A']), 3);
    assert_eq!(count_glyph_hits(&font, 0, &[]), 0);
    assert_eq!(glyph_coverage_score(&font, 1), None);
    assert_eq!(glyph_coverage_score(b"not a font", 0), None);
    assert_eq!(glyph_coverage_score(&font_with(&['A']), 0), None);
    let with_pua = glyph_coverage_score(&font_with(&['\u{e0b0}', '\u{e0b1}']), 0);
    assert!(with_pua.is_some());
}

fn face(name: &str, monospaced: bool) -> FontFace {
    FontFace {
        families: vec![("名前".to_string(), false), (name.to_string(), true)],
        monospaced,
        upright: true,
        weight: 400,
    }
}

#[test]
fn faces_are_ranked_by_what_they_show() {
    assert_eq!(preferred_family_name(&face("Hack", true)).as_deref(), Some("Hack"));
    let unnamed = FontFace { families: vec![], monospaced: true, upright: true, weight: 400 };
    assert_eq!(preferred_family_name(&unnamed), None);
    let slanted = FontFace { upright: false, ..face("Hack", true) };
    assert!(face_style_tie_breaker(&face("Hack", true)) > face_style_tie_breaker(&slanted));

    let font = font_with(&['\u{e0b0}', '\u{e0b1}', '\u{e0b2}', '\u{e0b3}', '✓', '✗', '➜', '⚡']);
    let mut candidates = Vec::new();
    consider_face(&mut candidates, &face("Plain Symbols", false), &font, 0);
    consider_face(&mut candidates, &face("Hack Nerd Font Mono", true), &font, 0);
    consider_face(&mut candidates, &face("Broken", true), b"", 0);
    consider_face(&mut candidates, &face("Letters", true), &font_with(&['A']), 0);
    let families = ranked_families(candidates);
    assert_eq!(
        families,
        vec!["Hack Nerd Font Mono".to_string(), "Plain Symbols".to_string()]
    );
}

#[test]
fn a_family_is_ranked_once_by_its_best_face() {
    let mut candidates = Vec::new();
    for (family, score, tie_breaker) in
        [("B", 200, 1), ("a", 200, 5), ("b", 300, 0), ("A", 100, 9), ("C", 200, 5)]
    {
        upsert_candidate(
            &mut candidates,
            FontCandidate { family: family.to_string(), score, tie_breaker },
        );
    }
    assert_eq!(candidates.len(), 3);
    let families = ranked_families(candidates);
    assert_eq!(families.len(), 3);
    assert!(families[0].eq_ignore_ascii_case("b"));
    assert_eq!(families[1], "C");
    assert_eq!(families[2], "a");
}
