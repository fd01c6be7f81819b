//! The fonts to fall back to: those that the user names, then fonts for symbols
//! that are found on the system.
//!
//! Fonts that cover Chinese, Japanese or Korean text are left out on purpose:
//! the system picks those by locale, and better.
use vstd::prelude::*;

use crate::chars::{
    ascii_lower_text, chars_of, contains_text, holds_text, lowercase_chars,
    same_text_ignoring_case, text_view, text_views, trim_text, trimmed,
};

verus! {

pub const MAX_AUTO_FALLBACKS: usize = 32;

/// The lowest score of a font that is worth falling back to.
pub const MIN_SCORE: i32 = 120;

/// A font family with what speaks for it.
pub struct FontCandidate {
    pub family: String,
    pub score: i32,
    pub tie_breaker: i32,
}

/// How many probes of each kind a font has a glyph for.
#[derive(Clone, Copy, Debug, PartialEq, Eq, Structural)]
pub struct GlyphCoverageHits {
    pub pua: i32,
    pub emoji: i32,
    pub symbol: i32,
    pub cjk_text: i32,
}

/// What the system tells about a font face.
pub struct FontFace {
    /// Its names, and whether each is an English one.
    pub families: Vec<(String, bool)>,
    pub monospaced: bool,
    pub upright: bool,
    pub weight: u16,
}

// ---------------------------------------------------------------------------
// The user's fonts and the system's
// ---------------------------------------------------------------------------

/// Whether a family is among some, whatever the case of its letters.
pub open spec fn holds_family(families: Seq<Seq<char>>, family: Seq<char>) -> bool {
    exists|i: int|
        0 <= i < families.len() && ascii_lower_text(#[trigger] families[i]) == ascii_lower_text(
            family,
        )
}

/// The families with one more, unless it is among them.
pub open spec fn with_family(families: Seq<Seq<char>>, family: Seq<char>) -> Seq<Seq<char>> {
    if holds_family(families, family) {
        families
    } else {
        families.push(family)
    }
}

pub fn push_unique_family(fallbacks: &mut Vec<String>, family: &str)
    ensures
        text_views(final(fallbacks)@) == with_family(text_views(old(fallbacks)@), family@),
{
    let ghost views = text_views(fallbacks@);
    let mut i: usize = 0;
    while i < fallbacks.len()
        invariant
            i <= fallbacks@.len(),
            views == text_views(fallbacks@),
            *fallbacks == *old(fallbacks),
            forall|k: int|
                0 <= k < i ==> ascii_lower_text(#[trigger] views[k]) != ascii_lower_text(family@),
        decreases fallbacks@.len() - i,
    {
        assert(views[i as int] == fallbacks@[i as int]@);
        if same_text_ignoring_case(fallbacks[i].as_str(), family) {
            return;
        }
        i += 1;
    }
    fallbacks.push(family.to_owned());
    assert(text_views(fallbacks@) =~= views.push(family@));
}

/// The user's families, without blanks, empty names and repetitions.
pub open spec fn with_named(families: Seq<Seq<char>>, named: Seq<Seq<char>>) -> Seq<Seq<char>>
    decreases named.len(),
{
    if named.len() == 0 {
        families
    } else {
        let front = with_named(families, named.drop_last());
        let family = trimmed(named.last());
        if family.len() == 0 {
            front
        } else {
            with_family(front, family)
        }
    }
}

/// The families of the system behind those of the user.
pub open spec fn with_found(families: Seq<Seq<char>>, found: Seq<Seq<char>>) -> Seq<Seq<char>>
    decreases found.len(),
{
    if found.len() == 0 {
        families
    } else {
        with_family(with_found(families, found.drop_last()), trimmed(found.last()))
    }
}

pub open spec fn merged_families(named: Seq<Seq<char>>, found: Seq<Seq<char>>) -> Seq<Seq<char>> {
    with_found(with_named(Seq::empty(), named), found)
}

pub fn merge_font_fallback_families(raw: &[String], auto: Vec<String>) -> (fallbacks: Vec<String>)
    ensures
        text_views(fallbacks@) == merged_families(text_views(raw@), text_views(auto@)),
{
    let ghost named = text_views(raw@);
    let ghost found = text_views(auto@);
    let mut fallbacks: Vec<String> = Vec::new();
    let mut i: usize = 0;
    assert(text_views(fallbacks@) =~= Seq::<Seq<char>>::empty());
    assert(named.take(0) =~= Seq::<Seq<char>>::empty());
    while i < raw.len()
        invariant
            i <= raw@.len(),
            named == text_views(raw@),
            text_views(fallbacks@) == with_named(Seq::empty(), named.take(i as int)),
        decreases raw@.len() - i,
    {
        assert(named.take(i + 1).drop_last() =~= named.take(i as int));
        let family = trim_text(raw[i].as_str());
        if !family.as_str().is_empty() {
            push_unique_family(&mut fallbacks, family.as_str());
        }
        i += 1;
    }
    assert(named.take(named.len() as int) =~= named);
    let ghost users = text_views(fallbacks@);
    let mut j: usize = 0;
    assert(found.take(0) =~= Seq::<Seq<char>>::empty());
    while j < auto.len()
        invariant
            j <= auto@.len(),
            found == text_views(auto@),
            text_views(fallbacks@) == with_found(users, found.take(j as int)),
        decreases auto@.len() - j,
    {
        assert(found.take(j + 1).drop_last() =~= found.take(j as int));
        let family = trim_text(auto[j].as_str());
        push_unique_family(&mut fallbacks, family.as_str());
        j += 1;
    }
    assert(found.take(found.len() as int) =~= found);
    fallbacks
}

/// Fonts that every system of the platform has: for use until the system's
/// fonts were looked at.
pub open spec fn conservative_families() -> Seq<Seq<char>> {
    seq![
        "PingFang SC"@,
        "Hiragino Sans"@,
        "Apple Color Emoji"@,
        "Apple Symbols"@,
        "Menlo"@,
    ]
}

pub fn conservative_fallback_families() -> (families: Vec<String>)
    ensures
        text_views(families@) == conservative_families(),
{
    let mut families: Vec<String> = Vec::new();
    families.push("PingFang SC".to_owned());
    families.push("Hiragino Sans".to_owned());
    families.push("Apple Color Emoji".to_owned());
    families.push("Apple Symbols".to_owned());
    families.push("Menlo".to_owned());
    assert(text_views(families@) =~= conservative_families());
    families
}

/// The fonts to fall back to, given what was found on the system if the search
/// has ended.
pub fn font_fallback_families(raw: &[String], discovered: Option<Vec<String>>) -> (families: Vec<
    String,
>)
    ensures
        text_views(families@) == merged_families(
            text_views(raw@),
            match discovered {
                Some(found) => text_views(found@),
                None => conservative_families(),
            },
        ),
{
    match discovered {
        Some(found) => merge_font_fallback_families(raw, found),
        None => merge_font_fallback_families(raw, conservative_fallback_families()),
    }
}

/// Whether no family occurs twice, whatever the case of its letters.
pub open spec fn all_different(families: Seq<Seq<char>>) -> bool {
    forall|i: int, j: int|
        0 <= i < j < families.len() ==> ascii_lower_text(#[trigger] families[i])
            != ascii_lower_text(#[trigger] families[j])
}

proof fn lemma_with_family(families: Seq<Seq<char>>, family: Seq<char>)
    requires
        all_different(families),
    ensures
        all_different(with_family(families, family)),
        families.is_prefix_of(with_family(families, family)),
        holds_family(with_family(families, family), family),
{
    let all = with_family(families, family);
    if !holds_family(families, family) {
        assert(all[all.len() - 1] == family);
        assert(families =~= all.take(families.len() as int));
    } else {
        assert(families =~= all.take(families.len() as int));
    }
}

proof fn lemma_with_named(families: Seq<Seq<char>>, named: Seq<Seq<char>>)
    requires
        all_different(families),
    ensures
        all_different(with_named(families, named)),
    decreases named.len(),
{
    if named.len() > 0 {
        lemma_with_named(families, named.drop_last());
        lemma_with_family(with_named(families, named.drop_last()), trimmed(named.last()));
    }
}

proof fn lemma_with_found(families: Seq<Seq<char>>, found: Seq<Seq<char>>)
    requires
        all_different(families),
    ensures
        all_different(with_found(families, found)),
        families.is_prefix_of(with_found(families, found)),
    decreases found.len(),
{
    if found.len() > 0 {
        let front = with_found(families, found.drop_last());
        lemma_with_found(families, found.drop_last());
        lemma_with_family(front, trimmed(found.last()));
        let all = with_found(families, found);
        assert(front.take(families.len() as int) =~= all.take(families.len() as int));
    } else {
        assert(families =~= with_found(families, found).take(families.len() as int));
    }
}

/// Law: the user's fonts come first, in the user's order, and no font comes
/// twice.
pub proof fn law_user_fonts_come_first(named: Seq<Seq<char>>, found: Seq<Seq<char>>)
    ensures
        with_named(Seq::empty(), named).is_prefix_of(merged_families(named, found)),
        all_different(merged_families(named, found)),
{
    lemma_with_named(Seq::empty(), named);
    lemma_with_found(with_named(Seq::empty(), named), found);
}

// ---------------------------------------------------------------------------
// What speaks for a font
// ---------------------------------------------------------------------------

pub open spec fn points(condition: bool, value: int) -> int {
    if condition {
        value
    } else {
        0
    }
}

/// How much a font's name speaks for it.
pub open spec fn name_score(family: Seq<char>, monospaced: bool) -> int {
    let n = ascii_lower_text(family);
    points(holds_text(n, "nerd font"@), 420) + points(holds_text(n, "powerline"@), 360) + points(
        holds_text(n, "codicon"@) || holds_text(n, "octicon"@) || holds_text(n, "devicon"@)
            || holds_text(n, "font awesome"@) || holds_text(n, "material icon"@),
        320,
    ) + points(holds_text(n, "emoji"@), 300) + (if holds_text(n, "sf symbols"@) {
        280int
    } else {
        points(holds_text(n, "symbol"@), 220)
    }) + points(holds_text(n, "mono"@) || holds_text(n, "monospace"@), 70) + points(monospaced, 40)
}

pub fn family_name_score(family: &str, monospaced: bool) -> (score: i32)
    ensures
        score == name_score(family@, monospaced),
        0 <= score <= 1790,
{
    let normalized = lowercase_chars(family);
    let n = normalized.as_slice();
    let mut score: i32 = 0;
    if contains_text(n, "nerd font") {
        score += 420;
    }
    if contains_text(n, "powerline") {
        score += 360;
    }
    if contains_text(n, "codicon") || contains_text(n, "octicon") || contains_text(n, "devicon")
        || contains_text(n, "font awesome") || contains_text(n, "material icon") {
        score += 320;
    }
    if contains_text(n, "emoji") {
        score += 300;
    }
    if contains_text(n, "sf symbols") {
        score += 280;
    } else if contains_text(n, "symbol") {
        score += 220;
    }
    if contains_text(n, "mono") || contains_text(n, "monospace") {
        score += 70;
    }
    if monospaced {
        score += 40;
    }
    score
}

/// How much the glyphs of a font speak for it, and what decides between fonts
/// for which as much speaks; none for a font with text glyphs of a script that
/// the system takes care of, or with hardly a symbol.
pub open spec fn coverage_score(hits: GlyphCoverageHits) -> Option<(int, int)> {
    if hits.cjk_text > 0 || (hits.pua == 0 && hits.emoji == 0 && hits.symbol < 3) {
        None
    } else {
        Some(
            (
                hits.pua * 90 + hits.emoji * 70 + hits.symbol * 20,
                hits.pua * 100 + hits.emoji * 20 + hits.symbol,
            ),
        )
    }
}

pub open spec fn score_view(score: Option<(i32, i32)>) -> Option<(int, int)> {
    match score {
        Some(s) => Some((s.0 as int, s.1 as int)),
        None => None,
    }
}

pub fn terminal_symbol_coverage_score(hits: GlyphCoverageHits) -> (r: Option<(i32, i32)>)
    requires
        coverage_score(hits) matches Some((score, tie_breaker)) ==> i32::MIN <= score <= i32::MAX
            && i32::MIN <= tie_breaker <= i32::MAX,
    ensures
        score_view(r) == coverage_score(hits),
{
    if hits.cjk_text > 0 || (hits.pua == 0 && hits.emoji == 0 && hits.symbol < 3) {
        return None;
    }
    let (pua, emoji, symbol) = (hits.pua as i64, hits.emoji as i64, hits.symbol as i64);
    let score: i64 = pua * 90 + emoji * 70 + symbol * 20;
    let tie_breaker: i64 = pua * 100 + emoji * 20 + symbol;
    Some((score as i32, tie_breaker as i32))
}

/// Whether a font file can be read as a font face.
pub uninterp spec fn face_is_readable(data: Seq<u8>, face_index: u32) -> bool;

/// Whether a font face maps a character to a glyph.
pub uninterp spec fn face_has_glyph(data: Seq<u8>, face_index: u32, c: char) -> bool;

/// `ttf_parser::Face::parse`: whether the bytes of a font file hold a face with
/// this index. It depends on the bytes and on the index alone.
#[verifier::external_body]
fn can_read_face(data: &[u8], face_index: u32) -> (r: bool)
    ensures
        r == face_is_readable(data@, face_index),
{
    ttf_parser::Face::parse(data, face_index).is_ok()
}

/// `ttf_parser::Face::glyph_index`, on the face that `ttf_parser::Face::parse`
/// reads: whether there is a glyph for a character; no where the face cannot be
/// read. It depends on the bytes, the index and the character alone.
#[verifier::external_body]
fn face_shows(data: &[u8], face_index: u32, c: char) -> (r: bool)
    ensures
        r == face_has_glyph(data@, face_index, c),
{
    ttf_parser::Face::parse(data, face_index).is_ok_and(|face| face.glyph_index(c).is_some())
}

/// How many of some characters a face has a glyph for.
pub open spec fn glyph_hits(data: Seq<u8>, face_index: u32, probes: Seq<char>) -> int
    decreases probes.len(),
{
    if probes.len() == 0 {
        0
    } else {
        glyph_hits(data, face_index, probes.drop_last()) + points(
            face_has_glyph(data, face_index, probes.last()),
            1,
        )
    }
}

pub fn count_glyph_hits(data: &[u8], face_index: u32, probes: &[char]) -> (hits: i32)
    requires
        probes@.len() <= i32::MAX,
    ensures
        hits == glyph_hits(data@, face_index, probes@),
        0 <= hits <= probes@.len(),
{
    let mut hits: i32 = 0;
    let mut i: usize = 0;
    assert(probes@.take(0) =~= Seq::<char>::empty());
    while i < probes.len()
        invariant
            i <= probes@.len() <= i32::MAX,
            hits == glyph_hits(data@, face_index, probes@.take(i as int)),
            0 <= hits <= i,
        decreases probes@.len() - i,
    {
        assert(probes@.take(i + 1).drop_last() =~= probes@.take(i as int));
        if face_shows(data, face_index, probes[i]) {
            hits += 1;
        }
        i += 1;
    }
    assert(probes@.take(probes@.len() as int) =~= probes@);
    hits
}

/// Signs of prompts and icons in the private use area.
pub open spec fn pua_probes() -> Seq<char> {
    seq![
        '\u{e0a0}',
        '\u{e0b0}',
        '\u{e700}',
        '\u{f000}',
        '\u{f013}',
        '\u{f07b}',
        '\u{f120}',
        '\u{f1c0}',
        '\u{f303}',
        '\u{f489}',
        '\u{f4d3}',
    ]
}

pub open spec fn emoji_probes() -> Seq<char> {
    seq!['\u{1f4c1}', '\u{1f600}', '\u{1f680}', '\u{2764}']
}

pub open spec fn symbol_probes() -> Seq<char> {
    seq!['\u{2713}', '\u{26a0}', '\u{2190}', '\u{2192}', '\u{2318}', '\u{25cf}', '\u{25cb}']
}

/// Ideographs, kana and hangul.
pub open spec fn cjk_text_probes() -> Seq<char> {
    seq![
        '\u{4e2d}',
        '\u{6587}',
        '\u{4f60}',
        '\u{597d}',
        '\u{570b}',
        '\u{6f22}',
        '\u{3042}',
        '\u{30a2}',
        '\u{ac00}',
        '\u{d55c}',
    ]
}

/// The score of a face by its glyphs; none where it cannot be read.
pub open spec fn face_score(data: Seq<u8>, face_index: u32) -> Option<(int, int)> {
    if !face_is_readable(data, face_index) {
        None
    } else {
        let pua = glyph_hits(data, face_index, pua_probes());
        let emoji = glyph_hits(data, face_index, emoji_probes());
        let symbol = glyph_hits(data, face_index, symbol_probes());
        if glyph_hits(data, face_index, cjk_text_probes()) > 0 || (pua == 0 && emoji == 0 && symbol
            < 3) {
            None
        } else {
            Some((pua * 90 + emoji * 70 + symbol * 20, pua * 100 + emoji * 20 + symbol))
        }
    }
}

pub fn glyph_coverage_score(data: &[u8], face_index: u32) -> (r: Option<(i32, i32)>)
    ensures
        score_view(r) == face_score(data@, face_index),
        r matches Some(s) ==> 0 <= s.0 <= 2000 && 0 <= s.1 <= 2000,
{
    if !can_read_face(data, face_index) {
        return None;
    }
    let pua: [char; 11] = [
        '\u{e0a0}',
        '\u{e0b0}',
        '\u{e700}',
        '\u{f000}',
        '\u{f013}',
        '\u{f07b}',
        '\u{f120}',
        '\u{f1c0}',
        '\u{f303}',
        '\u{f489}',
        '\u{f4d3}',
    ];
    assert(pua@ =~= pua_probes());
    let emoji: [char; 4] = ['\u{1f4c1}', '\u{1f600}', '\u{1f680}', '\u{2764}'];
    assert(emoji@ =~= emoji_probes());
    let symbol: [char; 7] = [
        '\u{2713}',
        '\u{26a0}',
        '\u{2190}',
        '\u{2192}',
        '\u{2318}',
        '\u{25cf}',
        '\u{25cb}',
    ];
    assert(symbol@ =~= symbol_probes());
    let cjk_text: [char; 10] = [
        '\u{4e2d}',
        '\u{6587}',
        '\u{4f60}',
        '\u{597d}',
        '\u{570b}',
        '\u{6f22}',
        '\u{3042}',
        '\u{30a2}',
        '\u{ac00}',
        '\u{d55c}',
    ];
    assert(cjk_text@ =~= cjk_text_probes());
    terminal_symbol_coverage_score(
        GlyphCoverageHits {
            pua: count_glyph_hits(data, face_index, &pua),
            emoji: count_glyph_hits(data, face_index, &emoji),
            symbol: count_glyph_hits(data, face_index, &symbol),
            cjk_text: count_glyph_hits(data, face_index, &cjk_text),
        },
    )
}

/// What the style of a face adds: an upright face, a weight near the normal
/// one, and a fixed width speak for it.
pub open spec fn style_score(face: FontFace) -> int {
    let distance = if face.weight < 400 {
        400 - face.weight
    } else {
        face.weight - 400
    };
    points(face.upright, 20) - distance / 50 + points(face.monospaced, 10)
}

pub fn face_style_tie_breaker(face: &FontFace) -> (score: i32)
    ensures
        score == style_score(*face),
        -1400 <= score <= 30,
{
    let mut score: i32 = 0;
    if face.upright {
        score += 20;
    }
    let distance: i32 = if face.weight < 400 {
        400 - face.weight as i32
    } else {
        face.weight as i32 - 400
    };
    score -= distance / 50;
    if face.monospaced {
        score += 10;
    }
    score
}

pub open spec fn name_views(families: Seq<(String, bool)>) -> Seq<(Seq<char>, bool)> {
    families.map_values(|family: (String, bool)| (family.0@, family.1))
}

/// The first name that is not blank, among the English ones or among all.
pub open spec fn first_name(families: Seq<(Seq<char>, bool)>, english: bool) -> Option<Seq<char>>
    decreases families.len(),
{
    if families.len() == 0 {
        None
    } else if trimmed(families[0].0).len() > 0 && (families[0].1 || !english) {
        Some(trimmed(families[0].0))
    } else {
        first_name(families.skip(1), english)
    }
}

/// The name by which a face is asked for: an English one where it has one, for
/// that is the same in every locale.
pub open spec fn preferred_name(families: Seq<(Seq<char>, bool)>) -> Option<Seq<char>> {
    match first_name(families, true) {
        Some(name) => Some(name),
        None => first_name(families, false),
    }
}

fn find_name(families: &[(String, bool)], english: bool) -> (name: Option<String>)
    ensures
        text_view(name) == first_name(name_views(families@), english),
{
    let ghost views = name_views(families@);
    let mut i: usize = 0;
    assert(views.skip(0) =~= views);
    while i < families.len()
        invariant
            i <= families@.len(),
            views == name_views(families@),
            first_name(views.skip(i as int), english) == first_name(views, english),
        decreases families@.len() - i,
    {
        assert(views.skip(i as int)[0] == (families@[i as int].0@, families@[i as int].1));
        assert(views.skip(i as int).skip(1) =~= views.skip(i + 1));
        let name = trim_text(families[i].0.as_str());
        if !name.as_str().is_empty() && (families[i].1 || !english) {
            return Some(name);
        }
        i += 1;
    }
    None
}

pub fn preferred_family_name(face: &FontFace) -> (name: Option<String>)
    ensures
        text_view(name) == preferred_name(name_views(face.families@)),
{
    match find_name(face.families.as_slice(), true) {
        Some(name) => Some(name),
        None => find_name(face.families.as_slice(), false),
    }
}

// ---------------------------------------------------------------------------
// The best fonts
// ---------------------------------------------------------------------------

pub ghost struct CandidateView {
    pub family: Seq<char>,
    pub score: i32,
    pub tie_breaker: i32,
}

impl View for FontCandidate {
    type V = CandidateView;

    open spec fn view(&self) -> CandidateView {
        CandidateView {
            family: self.family@,
            score: self.score,
            tie_breaker: self.tie_breaker,
        }
    }
}

pub open spec fn candidate_views(candidates: Seq<FontCandidate>) -> Seq<CandidateView> {
    candidates.map_values(|candidate: FontCandidate| candidate@)
}

/// Whether more speaks for one candidate than for another.
pub open spec fn better(a: CandidateView, b: CandidateView) -> bool {
    a.score > b.score || (a.score == b.score && a.tie_breaker > b.tie_breaker)
}

/// Where a family stands among candidates, whatever the case of its letters.
pub open spec fn candidate_index(
    candidates: Seq<CandidateView>,
    family: Seq<char>,
    from: int,
) -> Option<int>
    decreases candidates.len() - from,
{
    if from >= candidates.len() {
        None
    } else if ascii_lower_text(candidates[from].family) == ascii_lower_text(family) {
        Some(from)
    } else {
        candidate_index(candidates, family, from + 1)
    }
}

/// The candidates with one more. Of a family that is among them the better
/// candidate stays.
pub open spec fn with_candidate(
    candidates: Seq<CandidateView>,
    candidate: CandidateView,
) -> Seq<CandidateView> {
    match candidate_index(candidates, candidate.family, 0) {
        Some(at) => if better(candidate, candidates[at]) {
            candidates.update(at, candidate)
        } else {
            candidates
        },
        None => candidates.push(candidate),
    }
}

pub fn upsert_candidate(candidates: &mut Vec<FontCandidate>, candidate: FontCandidate)
    ensures
        candidate_views(final(candidates)@) == with_candidate(
            candidate_views(old(candidates)@),
            candidate@,
        ),
{
    let ghost views = candidate_views(candidates@);
    let mut i: usize = 0;
    while i < candidates.len()
        invariant
            i <= candidates@.len(),
            *candidates == *old(candidates),
            views == candidate_views(candidates@),
            candidate_index(views, candidate.family@, i as int) == candidate_index(
                views,
                candidate.family@,
                0,
            ),
        decreases candidates@.len() - i,
    {
        assert(views[i as int] == candidates@[i as int]@);
        if same_text_ignoring_case(candidates[i].family.as_str(), candidate.family.as_str()) {
            let current: &FontCandidate = &candidates[i];
            if candidate.score > current.score || (candidate.score == current.score
                && candidate.tie_breaker > current.tie_breaker) {
                let ghost new = candidate@;
                candidates.set(i, candidate);
                assert(candidate_views(candidates@) =~= views.update(i as int, new));
            }
            return;
        }
        i += 1;
    }
    let ghost new = candidate@;
    candidates.push(candidate);
    assert(candidate_views(candidates@) =~= views.push(new));
}

/// The candidate that a face is; none for a private font of the system, which
/// cannot be asked for by name, and for one with too low a score.
pub open spec fn face_candidate(face: FontFace, data: Seq<u8>, face_index: u32) -> Option<
    CandidateView,
> {
    match (preferred_name(name_views(face.families@)), face_score(data, face_index)) {
        (Some(family), Some(score)) => if family[0] == '.' || name_score(family, face.monospaced)
            + score.0 < MIN_SCORE {
            None
        } else {
            Some(
                CandidateView {
                    family,
                    score: (name_score(family, face.monospaced) + score.0) as i32,
                    tie_breaker: (score.1 + style_score(face)) as i32,
                },
            )
        },
        _ => None,
    }
}

proof fn lemma_first_name_not_empty(families: Seq<(Seq<char>, bool)>, english: bool)
    ensures
        first_name(families, english) matches Some(name) ==> name.len() > 0,
    decreases families.len(),
{
    if families.len() > 0 {
        lemma_first_name_not_empty(families.skip(1), english);
    }
}

/// Takes a face into account.
pub fn consider_face(
    candidates: &mut Vec<FontCandidate>,
    face: &FontFace,
    data: &[u8],
    face_index: u32,
)
    ensures
        candidate_views(final(candidates)@) == match face_candidate(*face, data@, face_index) {
            Some(candidate) => with_candidate(candidate_views(old(candidates)@), candidate),
            None => candidate_views(old(candidates)@),
        },
{
    proof {
        lemma_first_name_not_empty(name_views(face.families@), true);
        lemma_first_name_not_empty(name_views(face.families@), false);
    }
    let family: String = match preferred_family_name(face) {
        Some(family) => family,
        None => return,
    };
    let chars = chars_of(family.as_str());
    if chars[0] == '.' {
        return;
    }
    let (coverage, tie_breaker) = match glyph_coverage_score(data, face_index) {
        Some(score) => score,
        None => return,
    };
    let score: i32 = family_name_score(family.as_str(), face.monospaced) + coverage;
    if score < MIN_SCORE {
        return;
    }
    let tie_breaker: i32 = tie_breaker + face_style_tie_breaker(face);
    upsert_candidate(candidates, FontCandidate { family, score, tie_breaker });
}

/// Whether one text comes before another, character by character.
pub open spec fn text_before(a: Seq<char>, b: Seq<char>) -> bool
    decreases a.len(),
{
    if a.len() == 0 {
        b.len() > 0
    } else if b.len() == 0 {
        false
    } else if a[0] == b[0] {
        text_before(a.skip(1), b.skip(1))
    } else {
        a[0] < b[0]
    }
}

/// Whether a candidate is ranked before another: the better one, and of two
/// equally good ones the one whose name comes first.
pub open spec fn ranked_before(a: CandidateView, b: CandidateView) -> bool {
    better(a, b) || (a.score == b.score && a.tie_breaker == b.tie_breaker && text_before(
        a.family,
        b.family,
    ))
}

fn is_text_before(a: &str, b: &str) -> (r: bool)
    ensures
        r == text_before(a@, b@),
{
    let left = chars_of(a);
    let right = chars_of(b);
    let mut i: usize = 0;
    assert(a@.skip(0) =~= a@);
    assert(b@.skip(0) =~= b@);
    while i < left.len() && i < right.len()
        invariant
            i <= left@.len(),
            i <= right@.len(),
            left@ == a@,
            right@ == b@,
            text_before(a@.skip(i as int), b@.skip(i as int)) == text_before(a@, b@),
        decreases left@.len() - i,
    {
        assert(a@.skip(i as int)[0] == left@[i as int]);
        assert(b@.skip(i as int)[0] == right@[i as int]);
        if left[i] != right[i] {
            return left[i] < right[i];
        }
        assert(a@.skip(i as int).skip(1) =~= a@.skip(i + 1));
        assert(b@.skip(i as int).skip(1) =~= b@.skip(i + 1));
        i += 1;
    }
    left.len() < right.len()
}

fn is_ranked_before(a: &FontCandidate, b: &FontCandidate) -> (r: bool)
    ensures
        r == ranked_before(a@, b@),
{
    if a.score != b.score {
        a.score > b.score
    } else if a.tie_breaker != b.tie_breaker {
        a.tie_breaker > b.tie_breaker
    } else {
        is_text_before(a.family.as_str(), b.family.as_str())
    }
}

/// A candidate put in its place: behind all that it is not ranked before.
pub open spec fn placed(ranked: Seq<CandidateView>, candidate: CandidateView) -> Seq<CandidateView>
    decreases ranked.len(),
{
    if ranked.len() > 0 && ranked_before(candidate, ranked.last()) {
        placed(ranked.drop_last(), candidate).push(ranked.last())
    } else {
        ranked.push(candidate)
    }
}

/// The candidates by rank.
pub open spec fn ranking(candidates: Seq<CandidateView>) -> Seq<CandidateView>
    decreases candidates.len(),
{
    if candidates.len() == 0 {
        candidates
    } else {
        placed(ranking(candidates.drop_last()), candidates.last())
    }
}

pub open spec fn best_families(candidates: Seq<CandidateView>) -> Seq<Seq<char>> {
    let ranked = ranking(candidates);
    Seq::new(
        if ranked.len() < MAX_AUTO_FALLBACKS {
            ranked.len()
        } else {
            MAX_AUTO_FALLBACKS as nat
        },
        |i: int| ranked[i].family,
    )
}

/// The families of the best candidates, by rank.
pub fn ranked_families(candidates: Vec<FontCandidate>) -> (families: Vec<String>)
    ensures
        text_views(families@) == best_families(candidate_views(candidates@)),
{
    let ghost views = candidate_views(candidates@);
    let mut order: Vec<usize> = Vec::new();
    let mut i: usize = 0;
    assert(views.take(0) =~= Seq::<CandidateView>::empty());
    assert(picked(views, order@) =~= Seq::<CandidateView>::empty());
    while i < candidates.len()
        invariant
            i <= candidates@.len(),
            views == candidate_views(candidates@),
            order@.len() == i,
            forall|k: int| 0 <= k < order@.len() ==> #[trigger] order@[k] < candidates@.len(),
            picked(views, order@) == ranking(views.take(i as int)),
        decreases candidates@.len() - i,
    {
        let ghost before = order@;
        let mut at: usize = order.len();
        assert(before.take(at as int) =~= before);
        assert(before.skip(at as int) =~= Seq::<usize>::empty());
        assert(placed(picked(views, before), views[i as int]) =~= placed(
            picked(views, before.take(at as int)),
            views[i as int],
        ) + picked(views, before.skip(at as int)));
        while at > 0 && is_ranked_before(&candidates[i], &candidates[order[at - 1]])
            invariant
                at <= order@.len(),
                i < candidates@.len(),
                order@ == before,
                views == candidate_views(candidates@),
                forall|k: int| 0 <= k < order@.len() ==> #[trigger] order@[k] < candidates@.len(),
                placed(picked(views, before), views[i as int]) == placed(
                    picked(views, before.take(at as int)),
                    views[i as int],
                ) + picked(views, before.skip(at as int)),
            decreases at,
        {
            proof {
                let head = picked(views, before.take(at as int));
                assert(head.last() == views[before[at - 1] as int]);
                assert(head.drop_last() =~= picked(views, before.take(at - 1)));
                let shorter = placed(picked(views, before.take(at - 1)), views[i as int]);
                assert(shorter.push(head.last()) + picked(views, before.skip(at as int))
                    =~= shorter + picked(views, before.skip(at - 1)));
            }
            at -= 1;
        }
        proof {
            let head = picked(views, before.take(at as int));
            if at > 0 {
                assert(head.last() == views[before[at - 1] as int]);
                assert(order@[at - 1] < candidates@.len());
            }
            assert(placed(head, views[i as int]) == head.push(views[i as int]));
        }
        order.insert(at, i);
        proof {
            assert(views.take(i + 1).drop_last() =~= views.take(i as int));
            assert(views.take(i + 1).last() == views[i as int]);
            assert(order@ =~= before.insert(at as int, i));
            assert forall|k: int| 0 <= k < order@.len() implies #[trigger] order@[k]
                < candidates@.len() by {
                if k < at {
                    assert(order@[k] == before[k]);
                } else if k > at {
                    assert(order@[k] == before[k - 1]);
                }
            }
            assert(picked(views, order@) =~= picked(views, before.take(at as int)).push(
                views[i as int],
            ) + picked(views, before.skip(at as int)));
        }
        i += 1;
    }
    assert(views.take(views.len() as int) =~= views);
    let count: usize = if order.len() < MAX_AUTO_FALLBACKS {
        order.len()
    } else {
        MAX_AUTO_FALLBACKS
    };
    let mut families: Vec<String> = Vec::new();
    let mut j: usize = 0;
    while j < count
        invariant
            j <= count <= order@.len(),
            views == candidate_views(candidates@),
            forall|k: int| 0 <= k < order@.len() ==> #[trigger] order@[k] < candidates@.len(),
            families@.len() == j,
            forall|k: int|
                0 <= k < j ==> (#[trigger] families@[k])@ == views[order@[k] as int].family,
        decreases count - j,
    {
        assert(order@[j as int] < candidates@.len());
        families.push(candidates[order[j]].family.clone());
        j += 1;
    }
    assert(text_views(families@) =~= best_families(views)) by {
        assert(ranking(views) == picked(views, order@));
    }
    families
}

/// The candidates at some places.
pub open spec fn picked(views: Seq<CandidateView>, order: Seq<usize>) -> Seq<CandidateView> {
    order.map_values(|at: usize| views[at as int])
}

/// Whether a sequence is in order of rank: none is ranked before one in front
/// of it.
pub open spec fn in_rank_order(ranked: Seq<CandidateView>) -> bool {
    forall|i: int, j: int|
        0 <= i < j < ranked.len() ==> !ranked_before(#[trigger] ranked[j], #[trigger] ranked[i])
}

proof fn lemma_text_before_is_strict(a: Seq<char>, b: Seq<char>)
    requires
        text_before(a, b),
    ensures
        !text_before(b, a),
    decreases a.len(),
{
    if a.len() > 0 && b.len() > 0 && a[0] == b[0] {
        lemma_text_before_is_strict(a.skip(1), b.skip(1));
    }
}

proof fn lemma_placed(ranked: Seq<CandidateView>, candidate: CandidateView)
    requires
        in_rank_order(ranked),
    ensures
        in_rank_order(placed(ranked, candidate)),
        placed(ranked, candidate).to_multiset() == ranked.push(candidate).to_multiset(),
        placed(ranked, candidate).len() == ranked.len() + 1,
        forall|k: int|
            0 <= k < placed(ranked, candidate).len() ==> (#[trigger] placed(ranked, candidate)[k]
                == candidate || ranked.contains(placed(ranked, candidate)[k])),
    decreases ranked.len(),
{
    broadcast use vstd::seq_lib::group_to_multiset_ensures;

    let all = placed(ranked, candidate);
    if ranked.len() > 0 && ranked_before(candidate, ranked.last()) {
        let front = ranked.drop_last();
        let last = ranked.last();
        let head = placed(front, candidate);
        lemma_placed(front, candidate);
        assert forall|k: int| 0 <= k < head.len() implies !ranked_before(last, #[trigger] head[k])
            by {
            if head[k] == candidate {
                if ranked_before(last, candidate) {
                    if last.score == candidate.score && last.tie_breaker == candidate.tie_breaker {
                        lemma_text_before_is_strict(candidate.family, last.family);
                    }
                }
            } else {
                let m = choose|m: int| 0 <= m < front.len() && front[m] == head[k];
                assert(ranked[m] == head[k]);
                assert(!ranked_before(ranked[ranked.len() - 1], ranked[m]));
            }
        }
        assert(ranked =~= front.push(last));
        assert(all.to_multiset() =~= ranked.push(candidate).to_multiset());
        assert forall|k: int| 0 <= k < all.len() implies (#[trigger] all[k] == candidate
            || ranked.contains(all[k])) by {
            if k < head.len() {
                assert(all[k] == head[k]);
                if head[k] != candidate {
                    let m = choose|m: int| 0 <= m < front.len() && front[m] == head[k];
                    assert(ranked[m] == all[k]);
                }
            } else {
                assert(ranked[ranked.len() - 1] == all[k]);
            }
        }
    } else {
        assert forall|i: int| 0 <= i < ranked.len() implies !ranked_before(
            candidate,
            #[trigger] ranked[i],
        ) by {
            let last = ranked[ranked.len() - 1];
            if i < ranked.len() - 1 && ranked_before(candidate, ranked[i]) {
                assert(!ranked_before(last, ranked[i]));
                lemma_not_before(candidate, ranked[i], last);
            }
        }
        assert forall|k: int| 0 <= k < all.len() implies (#[trigger] all[k] == candidate
            || ranked.contains(all[k])) by {
            if k < ranked.len() {
                assert(ranked[k] == all[k]);
            }
        }
    }
}

/// What is ranked before something that nothing behind is ranked before is
/// ranked before what is behind.
proof fn lemma_not_before(a: CandidateView, b: CandidateView, c: CandidateView)
    requires
        ranked_before(a, b),
        !ranked_before(c, b),
    ensures
        ranked_before(a, c),
{
    if a.score == b.score && a.tie_breaker == b.tie_breaker && c.score == b.score && c.tie_breaker
        == b.tie_breaker {
        lemma_text_not_before(a.family, b.family, c.family);
    }
}

proof fn lemma_text_not_before(a: Seq<char>, b: Seq<char>, c: Seq<char>)
    requires
        text_before(a, b),
        !text_before(c, b),
    ensures
        text_before(a, c),
    decreases a.len(),
{
    if a.len() > 0 && b.len() > 0 && c.len() > 0 && a[0] == b[0] && b[0] == c[0] {
        lemma_text_not_before(a.skip(1), b.skip(1), c.skip(1));
    }
}

/// Law: the ranking holds exactly the candidates, and none is ranked before
/// one in front of it.
pub proof fn law_ranking_is_sorted(candidates: Seq<CandidateView>)
    ensures
        in_rank_order(ranking(candidates)),
        ranking(candidates).to_multiset() == candidates.to_multiset(),
        best_families(candidates).len() <= MAX_AUTO_FALLBACKS,
    decreases candidates.len(),
{
    broadcast use vstd::seq_lib::group_to_multiset_ensures;

    if candidates.len() > 0 {
        let front = candidates.drop_last();
        law_ranking_is_sorted(front);
        lemma_placed(ranking(front), candidates.last());
        assert(candidates =~= front.push(candidates.last()));
    }
}

// ---------------------------------------------------------------------------
// What holds of all fonts
// ---------------------------------------------------------------------------

/// Whether all families can stand as they are: none is blank or has blanks
/// around it.
pub open spec fn all_trimmed(families: Seq<Seq<char>>) -> bool {
    forall|i: int|
        0 <= i < families.len() ==> trimmed(#[trigger] families[i]) == families[i]
            && families[i].len() > 0
}

proof fn lemma_named_as_they_are(families: Seq<Seq<char>>, named: Seq<Seq<char>>)
    requires
        all_trimmed(named),
        all_different(families + named),
    ensures
        with_named(families, named) == families + named,
        with_found(families, named) == families + named,
    decreases named.len(),
{
    if named.len() == 0 {
        assert(families + named =~= families);
    } else {
        let front = named.drop_last();
        let all = families + named;
        assert forall|i: int| 0 <= i < front.len() implies trimmed(#[trigger] front[i]) == front[i]
            && front[i].len() > 0 by {
            assert(named[i] == front[i]);
        }
        assert forall|i: int, j: int| 0 <= i < j < (families + front).len() implies
            ascii_lower_text(#[trigger] (families + front)[i]) != ascii_lower_text(
            #[trigger] (families + front)[j],
        ) by {
            assert(all[i] == (families + front)[i]);
            assert(all[j] == (families + front)[j]);
        }
        lemma_named_as_they_are(families, front);
        let last = named.last();
        assert(named[named.len() - 1] == last);
        assert(trimmed(last) == last);
        assert(!holds_family(families + front, last)) by {
            if holds_family(families + front, last) {
                let i = choose|i: int|
                    0 <= i < (families + front).len() && ascii_lower_text(
                        #[trigger] (families + front)[i],
                    ) == ascii_lower_text(last);
                assert(all[i] == (families + front)[i]);
                assert(all[all.len() - 1] == last);
            }
        }
        assert((families + front).push(last) =~= families + named);
    }
}

/// Law: fonts that differ, and have no blanks around their names, are all
/// taken, those of the user and then those of the system, each in its order.
pub proof fn law_fonts_keep_their_order(named: Seq<Seq<char>>, found: Seq<Seq<char>>)
    requires
        all_trimmed(named),
        all_trimmed(found),
        all_different(named + found),
    ensures
        merged_families(named, found) == named + found,
{
    let all = named + found;
    assert forall|i: int, j: int| 0 <= i < j < named.len() implies ascii_lower_text(
        #[trigger] named[i],
    ) != ascii_lower_text(#[trigger] named[j]) by {
        assert(all[i] == named[i]);
        assert(all[j] == named[j]);
    }
    assert(Seq::<Seq<char>>::empty() + named =~= named);
    lemma_named_as_they_are(Seq::empty(), named);
    lemma_named_as_they_are(named, found);
}

proof fn lemma_all_are_held(families: Seq<Seq<char>>, named: Seq<Seq<char>>, i: int)
    requires
        all_different(families),
        0 <= i < named.len(),
    ensures
        trimmed(named[i]).len() > 0 ==> holds_family(
            with_named(families, named),
            trimmed(named[i]),
        ),
        holds_family(with_found(families, named), trimmed(named[i])),
    decreases named.len(),
{
    let front = named.drop_last();
    let a = with_named(families, front);
    let b = with_found(families, front);
    lemma_with_named(families, front);
    lemma_with_found(families, front);
    lemma_with_family(a, trimmed(named.last()));
    lemma_with_family(b, trimmed(named.last()));
    if i < named.len() - 1 {
        lemma_all_are_held(families, front, i);
        lemma_still_held(a, with_named(families, named), trimmed(named[i]));
        lemma_still_held(b, with_found(families, named), trimmed(named[i]));
    }
}

proof fn lemma_still_held(families: Seq<Seq<char>>, more: Seq<Seq<char>>, family: Seq<char>)
    requires
        families.is_prefix_of(more) || families == more,
    ensures
        holds_family(families, family) ==> holds_family(more, family),
{
    if holds_family(families, family) {
        let k = choose|k: int|
            0 <= k < families.len() && ascii_lower_text(#[trigger] families[k])
                == ascii_lower_text(family);
        if families.is_prefix_of(more) {
            assert(more.take(families.len() as int)[k] == families[k]);
        }
        assert(more[k] == families[k]);
    }
}

/// Law: every font that the user names and every font of the system is among
/// the fonts to fall back to, except for blank names of the user's.
pub proof fn law_no_font_is_left_out(named: Seq<Seq<char>>, found: Seq<Seq<char>>, i: int)
    ensures
        0 <= i < named.len() && trimmed(named[i]).len() > 0 ==> holds_family(
            merged_families(named, found),
            trimmed(named[i]),
        ),
        0 <= i < found.len() ==> holds_family(merged_families(named, found), trimmed(found[i])),
{
    let users = with_named(Seq::empty(), named);
    lemma_with_named(Seq::empty(), named);
    lemma_with_found(users, found);
    if 0 <= i < named.len() && trimmed(named[i]).len() > 0 {
        lemma_all_are_held(Seq::empty(), named, i);
        lemma_still_held(users, merged_families(named, found), trimmed(named[i]));
    }
    if 0 <= i < found.len() {
        lemma_all_are_held(users, found, i);
    }
}

/// Whether a name, in lower case, tells of some icons.
pub open spec fn tells_of_icons(name: Seq<char>) -> bool {
    ||| holds_text(name, "codicon"@)
    ||| holds_text(name, "octicon"@)
    ||| holds_text(name, "devicon"@)
    ||| holds_text(name, "font awesome"@)
    ||| holds_text(name, "material icon"@)
}

/// Law: a fixed width speaks for a font, and so does each word of its name,
/// whatever the case of its letters: fonts patched for terminals come first,
/// then those with the signs of status lines, icons, emoji and other symbols.
pub proof fn law_words_that_speak_for_a_font(family: Seq<char>, monospaced: bool)
    ensures
        name_score(family, true) == name_score(family, false) + 40,
        name_score(family, monospaced) == name_score(ascii_lower_text(family), monospaced),
        ({
            let n = ascii_lower_text(family);
            let score = name_score(family, false);
            let nerd = holds_text(n, "nerd font"@);
            let powerline = holds_text(n, "powerline"@);
            let icons = tells_of_icons(n);
            let emoji = holds_text(n, "emoji"@);
            let system = holds_text(n, "sf symbols"@);
            let symbols = holds_text(n, "symbol"@);
            let mono = holds_text(n, "mono"@) || holds_text(n, "monospace"@);
            &&& score >= 0
            &&& nerd ==> score >= 420
            &&& powerline ==> score >= 360
            &&& icons ==> score >= 320
            &&& emoji ==> score >= 300
            &&& system ==> score >= 280
            &&& symbols ==> score >= 220
            &&& mono ==> score >= 70
            &&& (nerd && !powerline && !icons && !emoji && !system && !symbols) ==> score == if mono
                { 490int } else { 420 }
            &&& (!nerd && powerline && !icons && !emoji && !system && !symbols) ==> score == if mono
                { 430int } else { 360 }
            &&& (!nerd && !powerline && icons && !emoji && !system && !symbols) ==> score == if mono
                { 390int } else { 320 }
            &&& (!nerd && !powerline && !icons && emoji && !system && !symbols) ==> score == if mono
                { 370int } else { 300 }
            &&& (!nerd && !powerline && !icons && !emoji && system) ==> score == if mono
                { 350int } else { 280 }
            &&& (!nerd && !powerline && !icons && !emoji && !system && symbols) ==> score == if mono
                { 290int } else { 220 }
            &&& (!nerd && !powerline && !icons && !emoji && !system && !symbols) ==> score == if mono
                { 70int } else { 0 }
        }),
{
    assert(ascii_lower_text(ascii_lower_text(family)) =~= ascii_lower_text(family));
}

/// Law: a font with text glyphs of a script that the system takes care of is
/// out, and so is one with fewer than three symbols and nothing else. Of the
/// others every glyph counts, the private ones most and the symbols least.
pub proof fn law_glyphs_that_speak_for_a_font(hits: GlyphCoverageHits)
    ensures
        coverage_score(hits) is None <==> hits.cjk_text > 0 || (hits.pua == 0 && hits.emoji == 0
            && hits.symbol < 3),
        coverage_score(hits) is Some && hits.pua < i32::MAX ==> ({
            let more = GlyphCoverageHits { pua: (hits.pua + 1) as i32, ..hits };
            coverage_score(more) is Some ==> {
                &&& coverage_score(more).unwrap().0 == coverage_score(hits).unwrap().0 + 90
                &&& coverage_score(more).unwrap().1 == coverage_score(hits).unwrap().1 + 100
            }
        }),
        coverage_score(hits) is Some && hits.emoji < i32::MAX ==> ({
            let more = GlyphCoverageHits { emoji: (hits.emoji + 1) as i32, ..hits };
            coverage_score(more) is Some ==> {
                &&& coverage_score(more).unwrap().0 == coverage_score(hits).unwrap().0 + 70
                &&& coverage_score(more).unwrap().1 == coverage_score(hits).unwrap().1 + 20
            }
        }),
        coverage_score(hits) is Some && hits.symbol < i32::MAX ==> ({
            let more = GlyphCoverageHits { symbol: (hits.symbol + 1) as i32, ..hits };
            coverage_score(more) is Some ==> {
                &&& coverage_score(more).unwrap().0 == coverage_score(hits).unwrap().0 + 20
                &&& coverage_score(more).unwrap().1 == coverage_score(hits).unwrap().1 + 1
            }
        }),
        hits.cjk_text <= 0 && hits.pua == 0 && hits.emoji == 0 && hits.symbol >= 3 ==> coverage_score(
            hits,
        ) == Some((20 * hits.symbol, 1 * hits.symbol)),
{
}

/// Law: the score of a face is that of its glyphs, and a file that is no font
/// has none.
pub proof fn law_scores_of_faces(data: Seq<u8>, face_index: u32, hits: GlyphCoverageHits)
    requires
        hits.pua == glyph_hits(data, face_index, pua_probes()),
        hits.emoji == glyph_hits(data, face_index, emoji_probes()),
        hits.symbol == glyph_hits(data, face_index, symbol_probes()),
        hits.cjk_text == glyph_hits(data, face_index, cjk_text_probes()),
    ensures
        face_is_readable(data, face_index) ==> face_score(data, face_index) == coverage_score(hits),
        !face_is_readable(data, face_index) ==> face_score(data, face_index) is None,
{
}

/// Law: what is looked for in a font lies where its kind of glyph lies.
pub proof fn law_probes_are_of_their_kind(i: int)
    ensures
        0 <= i < pua_probes().len() ==> 0xe000 <= pua_probes()[i] as u32 <= 0xf8ff,
        0 <= i < emoji_probes().len() ==> 0x1f300 <= emoji_probes()[i] as u32 <= 0x1f6ff
            || emoji_probes()[i] as u32 == 0x2764,
        0 <= i < symbol_probes().len() ==> 0x2190 <= symbol_probes()[i] as u32 <= 0x27bf,
        0 <= i < cjk_text_probes().len() ==> 0x3040 <= cjk_text_probes()[i] as u32 <= 0x30ff
            || 0x4e00 <= cjk_text_probes()[i] as u32 <= 0x9fff || 0xac00
            <= cjk_text_probes()[i] as u32 <= 0xd7a3,
        pua_probes().no_duplicates(),
        emoji_probes().no_duplicates(),
        symbol_probes().no_duplicates(),
        cjk_text_probes().no_duplicates(),
{
}

/// Law: an upright face goes before a slanted one, a face of fixed width before
/// another, and the normal weight before every other: each fifty units off,
/// lighter or bolder alike, cost a point.
pub proof fn law_styles_that_speak_for_a_face(face: FontFace, off: int)
    requires
        0 <= off <= 400,
    ensures
        style_score(FontFace { upright: true, ..face }) == style_score(
            FontFace { upright: false, ..face },
        ) + 20,
        style_score(FontFace { monospaced: true, ..face }) == style_score(
            FontFace { monospaced: false, ..face },
        ) + 10,
        style_score(FontFace { upright: false, monospaced: false, weight: 400, ..face }) == 0,
        style_score(FontFace { weight: (400 + off) as u16, ..face }) == style_score(
            FontFace { weight: (400 - off) as u16, ..face },
        ),
        face.weight >= 400 && face.weight + 50 <= u16::MAX ==> style_score(
            FontFace { weight: (face.weight + 50) as u16, ..face },
        ) == style_score(face) - 1,
        style_score(face) <= style_score(FontFace { weight: 400, ..face }),
{
}

/// Whether a name can serve: it is not blank, and English where that is asked
/// for.
pub open spec fn serves(family: (Seq<char>, bool), english: bool) -> bool {
    trimmed(family.0).len() > 0 && (english ==> family.1)
}

proof fn lemma_first_name(families: Seq<(Seq<char>, bool)>, english: bool, i: int)
    ensures
        0 <= i < families.len() && serves(families[i], english) && (forall|k: int|
            0 <= k < i ==> !serves(#[trigger] families[k], english)) ==> first_name(
            families,
            english,
        ) == Some(trimmed(families[i].0)),
        (forall|k: int| 0 <= k < families.len() ==> !serves(#[trigger] families[k], english))
            ==> first_name(families, english) is None,
    decreases families.len(),
{
    if families.len() > 0 {
        let rest = families.skip(1);
        lemma_first_name(rest, english, i - 1);
        if 0 <= i < families.len() && serves(families[i], english) && (forall|k: int|
            0 <= k < i ==> !serves(#[trigger] families[k], english)) {
            if i > 0 {
                assert(!serves(families[0], english));
                assert(rest[i - 1] == families[i]);
                assert forall|k: int| 0 <= k < i - 1 implies !serves(#[trigger] rest[k], english) by {
                    assert(!serves(families[k + 1], english));
                }
            } else {
                assert(serves(families[0], english));
            }
        }
        if forall|k: int| 0 <= k < families.len() ==> !serves(#[trigger] families[k], english) {
            assert(!serves(families[0], english));
            assert forall|k: int| 0 <= k < rest.len() implies !serves(#[trigger] rest[k], english) by {
                assert(!serves(families[k + 1], english));
            }
        }
    }
}

/// Law: a face is asked for by its first English name, by its first name where
/// it has no English one, and not at all where all of its names are blank.
pub proof fn law_names_of_faces(families: Seq<(Seq<char>, bool)>, i: int)
    requires
        0 <= i < families.len(),
    ensures
        serves(families[i], true) && (forall|k: int|
            0 <= k < i ==> !serves(#[trigger] families[k], true)) ==> preferred_name(families)
            == Some(trimmed(families[i].0)),
        serves(families[i], false) && (forall|k: int|
            0 <= k < i ==> !serves(#[trigger] families[k], false)) && (forall|k: int|
            0 <= k < families.len() ==> !serves(#[trigger] families[k], true)) ==> preferred_name(
            families,
        ) == Some(trimmed(families[i].0)),
        (forall|k: int| 0 <= k < families.len() ==> !serves(#[trigger] families[k], false))
            ==> preferred_name(families) is None,
{
    lemma_first_name(families, true, i);
    lemma_first_name(families, false, i);
    if forall|k: int| 0 <= k < families.len() ==> !serves(#[trigger] families[k], false) {
        assert forall|k: int| 0 <= k < families.len() implies !serves(
            #[trigger] families[k],
            true,
        ) by {
            assert(!serves(families[k], false));
        }
    }
}

proof fn lemma_candidate_index(candidates: Seq<CandidateView>, family: Seq<char>, from: int)
    requires
        0 <= from,
    ensures
        match candidate_index(candidates, family, from) {
            Some(at) => from <= at < candidates.len() && ascii_lower_text(candidates[at].family)
                == ascii_lower_text(family),
            None => forall|k: int|
                from <= k < candidates.len() ==> ascii_lower_text(#[trigger] candidates[k].family)
                    != ascii_lower_text(family),
        },
    decreases candidates.len() - from,
{
    if from < candidates.len() {
        lemma_candidate_index(candidates, family, from + 1);
    }
}

/// Whether no two candidates are of one family.
pub open spec fn families_differ(candidates: Seq<CandidateView>) -> bool {
    forall|i: int, j: int|
        0 <= i < j < candidates.len() ==> ascii_lower_text(#[trigger] candidates[i].family)
            != ascii_lower_text(#[trigger] candidates[j].family)
}

/// Law: a candidate of a new family is put behind the others. Of one family the
/// one with the higher score stays, of equal scores the one that the second
/// number speaks for, and else the one that came first. Nothing else changes.
pub proof fn law_one_candidate_of_each_family(
    candidates: Seq<CandidateView>,
    candidate: CandidateView,
    i: int,
)
    requires
        families_differ(candidates),
        0 <= i < candidates.len(),
    ensures
        families_differ(with_candidate(candidates, candidate)),
        (forall|k: int|
            0 <= k < candidates.len() ==> ascii_lower_text(#[trigger] candidates[k].family)
                != ascii_lower_text(candidate.family)) ==> with_candidate(candidates, candidate)
            == candidates.push(candidate),
        ascii_lower_text(candidates[i].family) != ascii_lower_text(candidate.family)
            ==> with_candidate(candidates, candidate)[i] == candidates[i],
        ascii_lower_text(candidates[i].family) == ascii_lower_text(candidate.family) ==> {
            let all = with_candidate(candidates, candidate);
            &&& all.len() == candidates.len()
            &&& candidate.score > candidates[i].score ==> all[i] == candidate
            &&& candidate.score < candidates[i].score ==> all[i] == candidates[i]
            &&& candidate.score == candidates[i].score && candidate.tie_breaker
                > candidates[i].tie_breaker ==> all[i] == candidate
            &&& candidate.score == candidates[i].score && candidate.tie_breaker
                <= candidates[i].tie_breaker ==> all[i] == candidates[i]
        },
{
    lemma_candidate_index(candidates, candidate.family, 0);
    match candidate_index(candidates, candidate.family, 0) {
        Some(at) => {
            if at != i && ascii_lower_text(candidates[i].family) == ascii_lower_text(
                candidate.family,
            ) {
                assert(candidates[i].family == candidates[i].family);
                assert(candidates[at].family == candidates[at].family);
            }
        },
        None => {},
    }
}

/// Law: a face is a candidate where it has a name that can be asked for, which
/// does not start with a dot, and where name and glyphs together speak enough
/// for it. Its score counts both, and its style decides between equals.
pub proof fn law_faces_that_are_candidates(face: FontFace, data: Seq<u8>, face_index: u32)
    ensures
        ({
            let name = preferred_name(name_views(face.families@));
            let glyphs = face_score(data, face_index);
            let candidate = face_candidate(face, data, face_index);
            &&& name is None || glyphs is None ==> candidate is None
            &&& name is Some && glyphs is Some ==> {
                let family = name.unwrap();
                let score = name_score(family, face.monospaced) + glyphs.unwrap().0;
                &&& family[0] == '.' ==> candidate is None
                &&& score < 120 ==> candidate is None
                &&& family[0] != '.' && score >= 120 ==> candidate is Some
                    && candidate.unwrap().family == family
                &&& family[0] != '.' && 120 <= score <= i32::MAX ==> candidate.unwrap().score
                    == score
                &&& family[0] != '.' && score >= 120 && i32::MIN <= glyphs.unwrap().1 + style_score(
                    face,
                ) <= i32::MAX ==> candidate.unwrap().tie_breaker == glyphs.unwrap().1
                    + style_score(face)
            }
        }),
{
}

proof fn lemma_text_order(common: Seq<char>, a: Seq<char>, b: Seq<char>)
    ensures
        text_before(common + a, common + b) == text_before(a, b),
    decreases common.len(),
{
    if common.len() == 0 {
        assert(common + a =~= a);
        assert(common + b =~= b);
    } else {
        assert((common + a).skip(1) =~= common.skip(1) + a);
        assert((common + b).skip(1) =~= common.skip(1) + b);
        lemma_text_order(common.skip(1), a, b);
    }
}

/// Law: of two texts with a common beginning the first character that differs
/// decides which comes first, and a text comes before its continuations.
pub proof fn law_order_of_texts(common: Seq<char>, a: Seq<char>, b: Seq<char>)
    ensures
        a.len() > 0 && b.len() > 0 && a[0] < b[0] ==> text_before(common + a, common + b)
            && !text_before(common + b, common + a),
        b.len() > 0 ==> text_before(common, common + b) && !text_before(common + b, common),
        !text_before(a, a),
{
    lemma_text_order(common, a, b);
    lemma_text_order(common, b, a);
    let none = Seq::<char>::empty();
    lemma_text_order(common, none, b);
    lemma_text_order(common, b, none);
    assert(common + none =~= common);
    lemma_text_order(a, none, none);
    assert(a + none =~= a);
}

/// Law: at most thirty-two families are taken, those of the candidates with the
/// highest scores. Among equal scores the second number decides, and then the
/// name.
pub proof fn law_the_best_fonts_are_taken(candidates: Seq<CandidateView>, i: int, j: int)
    requires
        0 <= i < j < candidates.len(),
    ensures
        ({
            let ranked = ranking(candidates);
            let best = best_families(candidates);
            &&& ranked.len() == candidates.len()
            &&& best.len() == if candidates.len() < 32 { candidates.len() } else { 32 }
            &&& i < 32 ==> best[i] == ranked[i].family
            &&& ranked[i].score >= ranked[j].score
            &&& ranked[i].score == ranked[j].score ==> ranked[i].tie_breaker
                >= ranked[j].tie_breaker
            &&& ranked[i].score == ranked[j].score && ranked[i].tie_breaker == ranked[j].tie_breaker
                ==> !text_before(ranked[j].family, ranked[i].family)
        }),
{
    law_ranking_is_sorted(candidates);
    lemma_ranking_len(candidates);
    let ranked = ranking(candidates);
    assert(!ranked_before(ranked[j], ranked[i]));
}

proof fn lemma_ranking_len(candidates: Seq<CandidateView>)
    ensures
        ranking(candidates).len() == candidates.len(),
    decreases candidates.len(),
{
    if candidates.len() > 0 {
        lemma_ranking_len(candidates.drop_last());
        law_ranking_is_sorted(candidates.drop_last());
        lemma_placed(ranking(candidates.drop_last()), candidates.last());
    }
}

} // verus!
