//! Comfort for the typist: which kind of input method is on, and a cursor whose
//! colour shows it.
use vstd::prelude::*;

use crate::chars::{
    ascii_lower_text, contains_text, holds_text, lowercase_chars, push_chars, starts_with_text,
    text_views,
};

verus! {

#[derive(Clone, Copy, Debug, PartialEq, Eq, Structural)]
pub enum InputMode {
    Latin,
    Cjk,
    Unknown,
}

/// What the platform tells about its input source.
pub struct InputSourceSnapshot {
    pub source_id: String,
    pub mode_id: String,
    pub languages: Vec<String>,
}

// ---------------------------------------------------------------------------
// The kind of an input source
// ---------------------------------------------------------------------------

pub open spec fn str_view(text: Option<&str>) -> Seq<char> {
    match text {
        Some(t) => t@,
        None => Seq::empty(),
    }
}

/// The names of a source and of its mode in one text.
pub open spec fn names_text(source_id: Option<&str>, mode_id: Option<&str>) -> Seq<char> {
    ascii_lower_text(str_view(source_id)) + seq![' '] + ascii_lower_text(str_view(mode_id))
}

/// A language that is written with Chinese, Japanese or Korean characters.
pub open spec fn cjk_language(language: Seq<char>) -> bool {
    let l = ascii_lower_text(language);
    "zh"@.is_prefix_of(l) || "ja"@.is_prefix_of(l) || "ko"@.is_prefix_of(l) || holds_text(
        l,
        "hans"@,
    ) || holds_text(l, "hant"@)
}

/// A language that is written with Latin letters.
pub open spec fn latin_language(language: Seq<char>) -> bool {
    let l = ascii_lower_text(language);
    "en"@.is_prefix_of(l) || "fr"@.is_prefix_of(l) || "de"@.is_prefix_of(l)
}

/// The names of methods and vendors by which a source is known as Chinese.
pub open spec fn cjk_names(names: Seq<char>) -> bool {
    holds_text(names, "zh"@) || holds_text(names, "hans"@) || holds_text(names, "hant"@)
        || holds_text(names, "pinyin"@) || holds_text(names, "shuangpin"@) || holds_text(
        names,
        "wubi"@,
    ) || holds_text(names, "stroke"@) || holds_text(names, "zhuyin"@) || holds_text(
        names,
        "cangjie"@,
    ) || holds_text(names, "scim"@) || holds_text(names, "tcim"@) || holds_text(names, "rime"@)
        || holds_text(names, "sogou"@) || holds_text(names, "baidu"@) || holds_text(names, "qq"@)
        || holds_text(names, "wetype"@) || holds_text(names, "doubao"@)
}

pub open spec fn latin_names(names: Seq<char>) -> bool {
    holds_text(names, "keylayout"@) || holds_text(names, "abc"@) || holds_text(names, "roman"@)
}

pub open spec fn any_cjk(languages: Seq<Seq<char>>) -> bool {
    exists|i: int| 0 <= i < languages.len() && cjk_language(#[trigger] languages[i])
}

pub open spec fn any_latin(languages: Seq<Seq<char>>) -> bool {
    exists|i: int| 0 <= i < languages.len() && latin_language(#[trigger] languages[i])
}

/// The kind of a source: by its languages, then by its names. A source that is
/// known at all and not as anything else is Latin.
pub open spec fn source_kind(
    source_id: Option<&str>,
    mode_id: Option<&str>,
    languages: Seq<Seq<char>>,
) -> InputMode {
    let names = names_text(source_id, mode_id);
    if any_cjk(languages) || cjk_names(names) {
        InputMode::Cjk
    } else if any_latin(languages) || latin_names(names) || source_id is Some || mode_id is Some {
        InputMode::Latin
    } else {
        InputMode::Unknown
    }
}

fn is_cjk_language(language: &str) -> (r: bool)
    ensures
        r == cjk_language(language@),
{
    let l = lowercase_chars(language);
    let chars = l.as_slice();
    starts_with_text(chars, "zh") || starts_with_text(chars, "ja") || starts_with_text(chars, "ko")
        || contains_text(chars, "hans") || contains_text(chars, "hant")
}

fn is_latin_language(language: &str) -> (r: bool)
    ensures
        r == latin_language(language@),
{
    let l = lowercase_chars(language);
    let chars = l.as_slice();
    starts_with_text(chars, "en") || starts_with_text(chars, "fr") || starts_with_text(chars, "de")
}

fn has_cjk_name(names: &[char]) -> (r: bool)
    ensures
        r == cjk_names(names@),
{
    contains_text(names, "zh") || contains_text(names, "hans") || contains_text(names, "hant")
        || contains_text(names, "pinyin") || contains_text(names, "shuangpin") || contains_text(
        names,
        "wubi",
    ) || contains_text(names, "stroke") || contains_text(names, "zhuyin") || contains_text(
        names,
        "cangjie",
    ) || contains_text(names, "scim") || contains_text(names, "tcim") || contains_text(
        names,
        "rime",
    ) || contains_text(names, "sogou") || contains_text(names, "baidu") || contains_text(
        names,
        "qq",
    ) || contains_text(names, "wetype") || contains_text(names, "doubao")
}

fn has_cjk_language(languages: &[String]) -> (r: bool)
    ensures
        r == any_cjk(text_views(languages@)),
{
    let ghost views = text_views(languages@);
    let mut i: usize = 0;
    while i < languages.len()
        invariant
            i <= languages@.len(),
            views == text_views(languages@),
            forall|k: int| 0 <= k < i ==> !cjk_language(#[trigger] views[k]),
        decreases languages@.len() - i,
    {
        assert(views[i as int] == languages@[i as int]@);
        if is_cjk_language(languages[i].as_str()) {
            return true;
        }
        i += 1;
    }
    false
}

fn has_latin_language(languages: &[String]) -> (r: bool)
    ensures
        r == any_latin(text_views(languages@)),
{
    let ghost views = text_views(languages@);
    let mut i: usize = 0;
    while i < languages.len()
        invariant
            i <= languages@.len(),
            views == text_views(languages@),
            forall|k: int| 0 <= k < i ==> !latin_language(#[trigger] views[k]),
        decreases languages@.len() - i,
    {
        assert(views[i as int] == languages@[i as int]@);
        if is_latin_language(languages[i].as_str()) {
            return true;
        }
        i += 1;
    }
    false
}

pub fn classify_input_source(
    source_id: Option<&str>,
    mode_id: Option<&str>,
    languages: &[String],
) -> (mode: InputMode)
    ensures
        mode == source_kind(source_id, mode_id, text_views(languages@)),
{
    let mut names: Vec<char> = Vec::new();
    if let Some(id) = source_id {
        let chars = lowercase_chars(id);
        push_chars(&mut names, chars.as_slice());
    }
    names.push(' ');
    if let Some(id) = mode_id {
        let chars = lowercase_chars(id);
        push_chars(&mut names, chars.as_slice());
    }
    assert(names@ =~= names_text(source_id, mode_id));
    if has_cjk_language(languages) || has_cjk_name(names.as_slice()) {
        return InputMode::Cjk;
    }
    if has_latin_language(languages) || contains_text(names.as_slice(), "keylayout")
        || contains_text(names.as_slice(), "abc") || contains_text(names.as_slice(), "roman")
        || source_id.is_some() || mode_id.is_some() {
        return InputMode::Latin;
    }
    InputMode::Unknown
}

/// The kind of the source that the platform tells of, if it does.
pub fn current_input_mode(snapshot: &Option<InputSourceSnapshot>) -> (mode: InputMode)
    ensures
        match snapshot {
            None => mode == InputMode::Unknown,
            Some(source) => exists|source_id: Option<&str>, mode_id: Option<&str>|
                #![trigger source_kind(source_id, mode_id, text_views(source.languages@))]
                {
                    &&& (source_id matches Some(id) ==> id@ == source.source_id@)
                    &&& (source_id is Some <==> source.source_id@.len() > 0)
                    &&& (mode_id matches Some(id) ==> id@ == source.mode_id@)
                    &&& (mode_id is Some <==> source.mode_id@.len() > 0)
                    &&& mode == source_kind(source_id, mode_id, text_views(source.languages@))
                },
        },
{
    match snapshot {
        None => InputMode::Unknown,
        Some(source) => {
            let source_id: Option<&str> = if source.source_id.as_str().is_empty() {
                None
            } else {
                Some(source.source_id.as_str())
            };
            let mode_id: Option<&str> = if source.mode_id.as_str().is_empty() {
                None
            } else {
                Some(source.mode_id.as_str())
            };
            classify_input_source(source_id, mode_id, source.languages.as_slice())
        },
    }
}

/// Law: a source that names a language of its script is known by it, whatever
/// it is called.
pub proof fn law_languages_come_first(
    source_id: Option<&str>,
    mode_id: Option<&str>,
    languages: Seq<Seq<char>>,
)
    requires
        any_cjk(languages),
    ensures
        source_kind(source_id, mode_id, languages) == InputMode::Cjk,
{
}

// ---------------------------------------------------------------------------
// Following the input source
// ---------------------------------------------------------------------------

/// How long a look at the input source lasts, in milliseconds.
pub const INPUT_MODE_REFRESH_INTERVAL_MS: u64 = 250;

pub struct ConvenienceState {
    input_mode: InputMode,
    last_input_mode_refresh_at: Option<u64>,
}

impl ConvenienceState {
    pub closed spec fn mode(&self) -> InputMode {
        self.input_mode
    }

    /// When the input source was last looked at, in milliseconds.
    pub closed spec fn refreshed_at(&self) -> Option<u64> {
        self.last_input_mode_refresh_at
    }

    /// Whether it is time to look at the input source again.
    pub open spec fn due(&self, now_ms: u64) -> bool {
        match self.refreshed_at() {
            Some(last) => now_ms >= last && now_ms - last >= INPUT_MODE_REFRESH_INTERVAL_MS,
            None => true,
        }
    }

    /// `current` is the kind of the input source now.
    pub fn new(now_ms: u64, current: InputMode) -> (state: Self)
        ensures
            state.mode() == current,
            state.refreshed_at() == Some(now_ms),
    {
        let mut state = ConvenienceState {
            input_mode: InputMode::Unknown,
            last_input_mode_refresh_at: None,
        };
        let _changed = state.refresh_input_mode(now_ms, current);
        state
    }

    pub fn input_mode(&self) -> (mode: InputMode)
        ensures
            mode == self.mode(),
    {
        self.input_mode
    }

    /// Takes over what the input source is now; returns whether it changed.
    pub fn refresh_input_mode(&mut self, now_ms: u64, next: InputMode) -> (changed: bool)
        ensures
            final(self).mode() == next,
            final(self).refreshed_at() == Some(now_ms),
            changed == (next != old(self).mode()),
    {
        self.last_input_mode_refresh_at = Some(now_ms);
        if next == self.input_mode {
            return false;
        }
        self.input_mode = next;
        true
    }

    pub fn refresh_is_due(&self, now_ms: u64) -> (r: bool)
        ensures
            r == self.due(now_ms),
    {
        match self.last_input_mode_refresh_at {
            Some(last) => now_ms >= last && now_ms - last >= INPUT_MODE_REFRESH_INTERVAL_MS,
            None => true,
        }
    }

    pub fn refresh_input_mode_if_due(&mut self, now_ms: u64, next: InputMode) -> (changed: bool)
        ensures
            old(self).due(now_ms) ==> {
                &&& final(self).mode() == next
                &&& final(self).refreshed_at() == Some(now_ms)
                &&& changed == (next != old(self).mode())
            },
            !old(self).due(now_ms) ==> {
                &&& final(self).mode() == old(self).mode()
                &&& final(self).refreshed_at() == old(self).refreshed_at()
                &&& !changed
            },
    {
        if !self.refresh_is_due(now_ms) {
            return false;
        }
        self.refresh_input_mode(now_ms, next)
    }
}

// ---------------------------------------------------------------------------
// The colour of the cursor
// ---------------------------------------------------------------------------

/// The colour of a cursor without the focus: red, green, blue and alpha.
pub const UNFOCUSED_CURSOR: u32 = 0x8a8f98aa;

/// The colour of a cursor while a Chinese, Japanese or Korean method is on.
pub const CJK_CURSOR: u32 = 0x2ee6a6cc;

pub open spec fn input_mode_color(base: u32, input_mode: InputMode) -> u32 {
    if input_mode == InputMode::Cjk {
        CJK_CURSOR
    } else {
        base
    }
}

pub fn cursor_color_for_focus(base: u32, input_mode: InputMode, focused: bool) -> (color: u32)
    ensures
        color == if focused {
            input_mode_color(base, input_mode)
        } else {
            UNFOCUSED_CURSOR
        },
{
    if focused {
        cursor_color_for_input_mode(base, input_mode)
    } else {
        UNFOCUSED_CURSOR
    }
}

pub fn cursor_color_for_input_mode(base: u32, input_mode: InputMode) -> (color: u32)
    ensures
        color == input_mode_color(base, input_mode),
{
    match input_mode {
        InputMode::Latin => base,
        InputMode::Unknown => base,
        InputMode::Cjk => CJK_CURSOR,
    }
}

/// Law: languages of Chinese, Japanese and Korean, by the start of their names or
/// by the kind of their characters, make a source one of these; so does each of the
/// names of methods by which such a source is known. All other sources that are
/// known at all are Latin.
pub proof fn law_kinds_of_input_sources(
    source_id: Option<&str>,
    mode_id: Option<&str>,
    languages: Seq<Seq<char>>,
    i: int,
    name: Seq<char>,
)
    ensures
        ({
            let kind = source_kind(source_id, mode_id, languages);
            let names = names_text(source_id, mode_id);
            &&& 0 <= i < languages.len() && ("zh"@.is_prefix_of(ascii_lower_text(languages[i]))
                || "ja"@.is_prefix_of(ascii_lower_text(languages[i])) || "ko"@.is_prefix_of(
                ascii_lower_text(languages[i]),
            ) || holds_text(ascii_lower_text(languages[i]), "hans"@) || holds_text(
                ascii_lower_text(languages[i]),
                "hant"@,
            )) ==> kind == InputMode::Cjk
            &&& (name == "zh"@ || name == "hans"@ || name == "hant"@ || name == "pinyin"@ || name
                == "shuangpin"@ || name == "wubi"@ || name == "stroke"@ || name == "zhuyin"@ || name
                == "cangjie"@ || name == "scim"@ || name == "tcim"@ || name == "rime"@ || name
                == "sogou"@ || name == "baidu"@ || name == "qq"@ || name == "wetype"@ || name
                == "doubao"@) && holds_text(names, name) ==> kind == InputMode::Cjk
            &&& source_id is None && mode_id is None && languages.len() == 0 ==> kind
                == InputMode::Unknown
            &&& kind == InputMode::Unknown ==> source_id is None && mode_id is None
            &&& languages.len() == 0 && source_id is Some && !cjk_names(names) ==> kind
                == InputMode::Latin
            &&& languages.len() == 0 && kind == InputMode::Cjk ==> holds_text(names, "zh"@)
                || holds_text(names, "hans"@) || holds_text(names, "hant"@) || holds_text(
                names,
                "pinyin"@,
            ) || holds_text(names, "shuangpin"@) || holds_text(names, "wubi"@) || holds_text(
                names,
                "stroke"@,
            ) || holds_text(names, "zhuyin"@) || holds_text(names, "cangjie"@) || holds_text(
                names,
                "scim"@,
            ) || holds_text(names, "tcim"@) || holds_text(names, "rime"@) || holds_text(
                names,
                "sogou"@,
            ) || holds_text(names, "baidu"@) || holds_text(names, "qq"@) || holds_text(
                names,
                "wetype"@,
            ) || holds_text(names, "doubao"@)
        }),
{
    if source_id is None && mode_id is None && languages.len() == 0 {
        let names = names_text(source_id, mode_id);
        assert(names =~= seq![' ']);
        assert forall|part: Seq<char>| part.len() >= 2 implies !#[trigger] holds_text(
            names,
            part,
        ) by {}
        reveal_strlit("zh");
        reveal_strlit("hans");
        reveal_strlit("hant");
        reveal_strlit("pinyin");
        reveal_strlit("shuangpin");
        reveal_strlit("wubi");
        reveal_strlit("stroke");
        reveal_strlit("zhuyin");
        reveal_strlit("cangjie");
        reveal_strlit("scim");
        reveal_strlit("tcim");
        reveal_strlit("rime");
        reveal_strlit("sogou");
        reveal_strlit("baidu");
        reveal_strlit("qq");
        reveal_strlit("wetype");
        reveal_strlit("doubao");
        reveal_strlit("keylayout");
        reveal_strlit("abc");
        reveal_strlit("roman");
    }
}

/// Law: a cursor with the focus has the colour of its theme, or a green one while
/// such a source is on.
pub proof fn law_colors_of_the_cursor(base: u32, input_mode: InputMode)
    ensures
        input_mode_color(base, InputMode::Latin) == base,
        input_mode_color(base, InputMode::Unknown) == base,
        input_mode_color(base, InputMode::Cjk) == 0x2ee6a6cc,
{
}

/// Law: a source without names whose languages are none of these is Latin where
/// one of its languages is English, French or German, and unknown else.
pub proof fn law_languages_of_latin_letters(languages: Seq<Seq<char>>, i: int)
    requires
        0 <= i < languages.len(),
        !any_cjk(languages),
    ensures
        ({
            let language = ascii_lower_text(languages[i]);
            let kind = source_kind(None, None, languages);
            &&& "en"@.is_prefix_of(language) || "fr"@.is_prefix_of(language) || "de"@.is_prefix_of(
                language,
            ) ==> kind == InputMode::Latin
            &&& languages.len() == 1 && !("en"@.is_prefix_of(language) || "fr"@.is_prefix_of(
                language,
            ) || "de"@.is_prefix_of(language)) ==> kind == InputMode::Unknown
        }),
{
    law_kinds_of_input_sources(None, None, Seq::empty(), 0, Seq::empty());
    assert(!any_cjk(Seq::<Seq<char>>::empty()));
    let language = ascii_lower_text(languages[i]);
    if latin_language(languages[i]) {
        assert(any_latin(languages));
    }
}

/// Law: the input source is looked at again a quarter of a second after the last
/// look, and not before; it is looked at at once where it never was.
pub proof fn law_when_to_look_again(state: ConvenienceState, now_ms: u64)
    ensures
        state.refreshed_at() is None ==> state.due(now_ms),
        state.refreshed_at() is Some ==> (state.due(now_ms) <==> now_ms
            >= state.refreshed_at()->0 + 250),
{
}

} // verus!
