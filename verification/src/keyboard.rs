//! Keystrokes as the bytes that a terminal sends: the legacy encoding, the
//! kitty keyboard protocol, and the shortcuts that the window keeps for itself.
use vstd::prelude::*;
use vstd::utf8::encode_utf8;

use crate::chars::{
    ascii_lower, ascii_lower_text, bytes_view, chars_of, control_char, decimal, has_control_char,
    holds_control_char, is_control, push_decimal, same_text, same_text_ignoring_case, text_view,
    to_ascii_lowercase,
};

verus! {

#[derive(Clone, Copy, Debug, PartialEq, Eq, Structural)]
pub struct Modifiers {
    pub control: bool,
    pub alt: bool,
    pub shift: bool,
    pub platform: bool,
    pub function: bool,
}

impl Modifiers {
    pub fn none() -> (modifiers: Modifiers)
        ensures
            modifiers == (Modifiers {
                control: false,
                alt: false,
                shift: false,
                platform: false,
                function: false,
            }),
    {
        Modifiers { control: false, alt: false, shift: false, platform: false, function: false }
    }
}

/// A key that was pressed or released.
pub struct Keystroke {
    pub modifiers: Modifiers,
    /// The name of the key, such as `a` or `left`.
    pub key: String,
    /// The text that the key types.
    pub key_char: Option<String>,
    /// Whether the key only advances a composition of the input method.
    pub ime_in_progress: bool,
}

#[derive(Clone, Copy, Debug, PartialEq, Eq, Structural)]
pub enum KittyKeyEventType {
    Press,
    Repeat,
    Release,
}

/// The modes that a program has switched on.
#[derive(Clone, Copy, Debug, PartialEq, Eq, Structural)]
pub struct TermMode {
    pub disambiguate_esc_codes: bool,
    pub report_event_types: bool,
    pub report_alternate_keys: bool,
    pub report_all_keys_as_esc: bool,
    pub report_associated_text: bool,
    pub mouse_report_click: bool,
    pub mouse_motion: bool,
    pub mouse_drag: bool,
    pub sgr_mouse: bool,
    pub utf8_mouse: bool,
    pub alt_screen: bool,
    pub alternate_scroll: bool,
    pub app_cursor: bool,
    pub bracketed_paste: bool,
    pub focus_in_out: bool,
    pub show_cursor: bool,
}

impl TermMode {
    pub open spec fn off() -> TermMode {
        TermMode {
            disambiguate_esc_codes: false,
            report_event_types: false,
            report_alternate_keys: false,
            report_all_keys_as_esc: false,
            report_associated_text: false,
            mouse_report_click: false,
            mouse_motion: false,
            mouse_drag: false,
            sgr_mouse: false,
            utf8_mouse: false,
            alt_screen: false,
            alternate_scroll: false,
            app_cursor: false,
            bracketed_paste: false,
            focus_in_out: false,
            show_cursor: false,
        }
    }

    /// No mode.
    pub fn empty() -> (mode: TermMode)
        ensures
            mode == TermMode::off(),
    {
        TermMode {
            disambiguate_esc_codes: false,
            report_event_types: false,
            report_alternate_keys: false,
            report_all_keys_as_esc: false,
            report_associated_text: false,
            mouse_report_click: false,
            mouse_motion: false,
            mouse_drag: false,
            sgr_mouse: false,
            utf8_mouse: false,
            alt_screen: false,
            alternate_scroll: false,
            app_cursor: false,
            bracketed_paste: false,
            focus_in_out: false,
            show_cursor: false,
        }
    }

    /// Whether any part of the kitty keyboard protocol is on.
    pub open spec fn kitty(self) -> bool {
        self.disambiguate_esc_codes || self.report_event_types || self.report_alternate_keys
            || self.report_all_keys_as_esc || self.report_associated_text
    }

    pub fn uses_kitty_keyboard(self) -> (r: bool)
        ensures
            r == self.kitty(),
    {
        self.disambiguate_esc_codes || self.report_event_types || self.report_alternate_keys
            || self.report_all_keys_as_esc || self.report_associated_text
    }
}

/// The keys that have an encoding of their own.
#[derive(Clone, Copy, Debug, PartialEq, Eq, Structural)]
pub enum KeyName {
    Space,
    Enter,
    Tab,
    Backspace,
    Escape,
    Left,
    Right,
    Up,
    Down,
    Home,
    End,
    Insert,
    Delete,
    PageUp,
    PageDown,
    F1,
    F2,
    F3,
    F4,
    F5,
    F6,
    F7,
    F8,
    F9,
    F10,
    F11,
    F12,
    Other,
}

pub open spec fn name_of(key: Seq<char>) -> KeyName {
    if key == "space"@ {
        KeyName::Space
    } else if key == "enter"@ {
        KeyName::Enter
    } else if key == "tab"@ {
        KeyName::Tab
    } else if key == "backspace"@ {
        KeyName::Backspace
    } else if key == "escape"@ {
        KeyName::Escape
    } else if key == "left"@ {
        KeyName::Left
    } else if key == "right"@ {
        KeyName::Right
    } else if key == "up"@ {
        KeyName::Up
    } else if key == "down"@ {
        KeyName::Down
    } else if key == "home"@ {
        KeyName::Home
    } else if key == "end"@ {
        KeyName::End
    } else if key == "insert"@ {
        KeyName::Insert
    } else if key == "delete"@ {
        KeyName::Delete
    } else if key == "pageup"@ {
        KeyName::PageUp
    } else if key == "pagedown"@ {
        KeyName::PageDown
    } else if key == "f1"@ {
        KeyName::F1
    } else if key == "f2"@ {
        KeyName::F2
    } else if key == "f3"@ {
        KeyName::F3
    } else if key == "f4"@ {
        KeyName::F4
    } else if key == "f5"@ {
        KeyName::F5
    } else if key == "f6"@ {
        KeyName::F6
    } else if key == "f7"@ {
        KeyName::F7
    } else if key == "f8"@ {
        KeyName::F8
    } else if key == "f9"@ {
        KeyName::F9
    } else if key == "f10"@ {
        KeyName::F10
    } else if key == "f11"@ {
        KeyName::F11
    } else if key == "f12"@ {
        KeyName::F12
    } else {
        KeyName::Other
    }
}

pub fn key_name(key: &str) -> (name: KeyName)
    ensures
        name == name_of(key@),
{
    if same_text(key, "space") {
        KeyName::Space
    } else if same_text(key, "enter") {
        KeyName::Enter
    } else if same_text(key, "tab") {
        KeyName::Tab
    } else if same_text(key, "backspace") {
        KeyName::Backspace
    } else if same_text(key, "escape") {
        KeyName::Escape
    } else if same_text(key, "left") {
        KeyName::Left
    } else if same_text(key, "right") {
        KeyName::Right
    } else if same_text(key, "up") {
        KeyName::Up
    } else if same_text(key, "down") {
        KeyName::Down
    } else if same_text(key, "home") {
        KeyName::Home
    } else if same_text(key, "end") {
        KeyName::End
    } else if same_text(key, "insert") {
        KeyName::Insert
    } else if same_text(key, "delete") {
        KeyName::Delete
    } else if same_text(key, "pageup") {
        KeyName::PageUp
    } else if same_text(key, "pagedown") {
        KeyName::PageDown
    } else if same_text(key, "f1") {
        KeyName::F1
    } else if same_text(key, "f2") {
        KeyName::F2
    } else if same_text(key, "f3") {
        KeyName::F3
    } else if same_text(key, "f4") {
        KeyName::F4
    } else if same_text(key, "f5") {
        KeyName::F5
    } else if same_text(key, "f6") {
        KeyName::F6
    } else if same_text(key, "f7") {
        KeyName::F7
    } else if same_text(key, "f8") {
        KeyName::F8
    } else if same_text(key, "f9") {
        KeyName::F9
    } else if same_text(key, "f10") {
        KeyName::F10
    } else if same_text(key, "f11") {
        KeyName::F11
    } else if same_text(key, "f12") {
        KeyName::F12
    } else {
        KeyName::Other
    }
}

pub const ESC: u8 = 0x1b;

/// The number and the final byte of the control sequence of a key.
pub open spec fn csi_form(name: KeyName) -> Option<(nat, u8)> {
    match name {
        KeyName::Up => Some((1, 0x41)),
        KeyName::Down => Some((1, 0x42)),
        KeyName::Right => Some((1, 0x43)),
        KeyName::Left => Some((1, 0x44)),
        KeyName::Home => Some((1, 0x48)),
        KeyName::End => Some((1, 0x46)),
        KeyName::Insert => Some((2, 0x7e)),
        KeyName::Delete => Some((3, 0x7e)),
        KeyName::PageUp => Some((5, 0x7e)),
        KeyName::PageDown => Some((6, 0x7e)),
        KeyName::F1 => Some((1, 0x50)),
        KeyName::F2 => Some((1, 0x51)),
        KeyName::F3 => Some((1, 0x52)),
        KeyName::F4 => Some((1, 0x53)),
        KeyName::F5 => Some((15, 0x7e)),
        KeyName::F6 => Some((17, 0x7e)),
        KeyName::F7 => Some((18, 0x7e)),
        KeyName::F8 => Some((19, 0x7e)),
        KeyName::F9 => Some((20, 0x7e)),
        KeyName::F10 => Some((21, 0x7e)),
        KeyName::F11 => Some((23, 0x7e)),
        KeyName::F12 => Some((24, 0x7e)),
        _ => None,
    }
}

/// The same for a key with modifiers and for the kitty protocol, where F3 has a
/// number of its own: with a field of modifiers its other form reads like a
/// report of the cursor position.
pub open spec fn numbered_form(name: KeyName) -> Option<(nat, u8)> {
    if name == KeyName::F3 {
        Some((13, 0x7e))
    } else {
        csi_form(name)
    }
}

fn csi_form_of(name: KeyName) -> (r: Option<(usize, u8)>)
    ensures
        match r {
            Some(form) => csi_form(name) == Some((form.0 as nat, form.1)),
            None => csi_form(name) is None,
        },
{
    match name {
        KeyName::Up => Some((1, 0x41)),
        KeyName::Down => Some((1, 0x42)),
        KeyName::Right => Some((1, 0x43)),
        KeyName::Left => Some((1, 0x44)),
        KeyName::Home => Some((1, 0x48)),
        KeyName::End => Some((1, 0x46)),
        KeyName::Insert => Some((2, 0x7e)),
        KeyName::Delete => Some((3, 0x7e)),
        KeyName::PageUp => Some((5, 0x7e)),
        KeyName::PageDown => Some((6, 0x7e)),
        KeyName::F1 => Some((1, 0x50)),
        KeyName::F2 => Some((1, 0x51)),
        KeyName::F3 => Some((1, 0x52)),
        KeyName::F4 => Some((1, 0x53)),
        KeyName::F5 => Some((15, 0x7e)),
        KeyName::F6 => Some((17, 0x7e)),
        KeyName::F7 => Some((18, 0x7e)),
        KeyName::F8 => Some((19, 0x7e)),
        KeyName::F9 => Some((20, 0x7e)),
        KeyName::F10 => Some((21, 0x7e)),
        KeyName::F11 => Some((23, 0x7e)),
        KeyName::F12 => Some((24, 0x7e)),
        _ => None,
    }
}

fn numbered_form_of(name: KeyName) -> (r: Option<(usize, u8)>)
    ensures
        match r {
            Some(form) => numbered_form(name) == Some((form.0 as nat, form.1)),
            None => numbered_form(name) is None,
        },
{
    if name == KeyName::F3 {
        Some((13, 0x7e))
    } else {
        csi_form_of(name)
    }
}

/// What a named key sends without modifiers.
pub open spec fn plain_key(name: KeyName) -> Option<Seq<u8>> {
    match name {
        KeyName::Space => Some(seq![0x20u8]),
        KeyName::Enter => Some(seq![0x0du8]),
        KeyName::Tab => Some(seq![0x09u8]),
        KeyName::Backspace => Some(seq![0x7fu8]),
        KeyName::Escape => Some(seq![ESC]),
        _ => match csi_form(name) {
            Some((number, last)) => if last == 0x7e {
                Some(seq![ESC, 0x5bu8] + decimal(number) + seq![0x7eu8])
            } else if 0x50 <= last <= 0x53 {
                Some(seq![ESC, 0x4fu8, last])
            } else {
                Some(seq![ESC, 0x5bu8, last])
            },
            None => None,
        },
    }
}

fn encode_plain_key(name: KeyName) -> (r: Option<Vec<u8>>)
    ensures
        bytes_view(r) == plain_key(name),
{
    match name {
        KeyName::Space => Some(one_byte(0x20)),
        KeyName::Enter => Some(one_byte(0x0d)),
        KeyName::Tab => Some(one_byte(0x09)),
        KeyName::Backspace => Some(one_byte(0x7f)),
        KeyName::Escape => Some(one_byte(ESC)),
        _ => match csi_form_of(name) {
            Some((number, last)) => {
                let mut bytes: Vec<u8> = Vec::new();
                bytes.push(ESC);
                if last == 0x7e {
                    bytes.push(0x5b);
                    assert(bytes@ =~= seq![ESC, 0x5bu8]);
                    push_decimal(&mut bytes, number as u64);
                    bytes.push(0x7e);
                    assert(bytes@ =~= seq![ESC, 0x5bu8] + decimal(number as nat) + seq![0x7eu8]);
                } else if 0x50 <= last && last <= 0x53 {
                    bytes.push(0x4f);
                    bytes.push(last);
                    assert(bytes@ =~= seq![ESC, 0x4fu8, last]);
                } else {
                    bytes.push(0x5b);
                    bytes.push(last);
                    assert(bytes@ =~= seq![ESC, 0x5bu8, last]);
                }
                Some(bytes)
            },
            None => None,
        },
    }
}

fn one_byte(byte: u8) -> (bytes: Vec<u8>)
    ensures
        bytes@ == seq![byte],
{
    let mut bytes: Vec<u8> = Vec::new();
    bytes.push(byte);
    assert(bytes@ =~= seq![byte]);
    bytes
}

fn two_bytes(first: u8, second: u8) -> (bytes: Vec<u8>)
    ensures
        bytes@ == seq![first, second],
{
    let mut bytes: Vec<u8> = Vec::new();
    bytes.push(first);
    bytes.push(second);
    assert(bytes@ =~= seq![first, second]);
    bytes
}

/// The UTF-8 encoding of a text, after an escape where `escaped`.
fn text_bytes(text: &str, escaped: bool) -> (bytes: Vec<u8>)
    ensures
        bytes@ == if escaped {
            seq![ESC] + encode_utf8(text@)
        } else {
            encode_utf8(text@)
        },
{
    let mut bytes: Vec<u8> = Vec::new();
    if escaped {
        bytes.push(ESC);
    }
    bytes.extend_from_slice(text.as_bytes());
    assert(bytes@ =~= if escaped {
        seq![ESC] + encode_utf8(text@)
    } else {
        encode_utf8(text@)
    });
    bytes
}

/// The number by which a sequence names the modifiers: shift, alt and control
/// count one, two and four, over a base of one.
pub open spec fn modifier_number(modifiers: Modifiers) -> int {
    1 + (if modifiers.shift {
        1int
    } else {
        0
    }) + (if modifiers.alt {
        2int
    } else {
        0
    }) + (if modifiers.control {
        4int
    } else {
        0
    })
}

pub fn modifier_code(keystroke: &Keystroke) -> (code: u8)
    ensures
        code == modifier_number(keystroke.modifiers),
        1 <= code <= 8,
{
    let mut code: u8 = 1;
    if keystroke.modifiers.shift {
        code += 1;
    }
    if keystroke.modifiers.alt {
        code += 2;
    }
    if keystroke.modifiers.control {
        code += 4;
    }
    code
}

/// What a key sends with modifiers.
pub open spec fn modified_key(name: KeyName, modifier: nat) -> Option<Seq<u8>> {
    match numbered_form(name) {
        Some((number, last)) => Some(
            seq![ESC, 0x5bu8] + decimal(number) + seq![0x3bu8] + decimal(modifier) + seq![last],
        ),
        None => None,
    }
}

pub fn encode_modified_special_key(key: &str, modifier_code: u8) -> (r: Option<Vec<u8>>)
    ensures
        bytes_view(r) == modified_key(name_of(key@), modifier_code as nat),
{
    match numbered_form_of(key_name(key)) {
        Some((number, last)) => {
            let mut bytes: Vec<u8> = two_bytes(ESC, 0x5b);
            push_decimal(&mut bytes, number as u64);
            bytes.push(0x3b);
            push_decimal(&mut bytes, modifier_code as u64);
            bytes.push(last);
            assert(bytes@ =~= seq![ESC, 0x5bu8] + decimal(number as nat) + seq![0x3bu8] + decimal(
                modifier_code as nat,
            ) + seq![last]);
            Some(bytes)
        },
        None => None,
    }
}

/// What a key that is held down with alt sends: an escape before its text. A
/// key that types a character beyond ASCII with alt sends its own name instead,
/// for this is what a program that binds the key expects.
pub open spec fn alt_key(key: Seq<char>, key_char: Option<Seq<char>>) -> Option<Seq<u8>> {
    let own_name = seq![ESC] + encode_utf8(key);
    match key_char {
        Some(text) => if text.len() > 0 && key.len() == 1 && vstd::utf8::is_ascii_chars(key)
            && !vstd::utf8::is_ascii_chars(text) {
            Some(own_name)
        } else if text.len() > 0 && !has_control_char(text) {
            Some(seq![ESC] + encode_utf8(text))
        } else if key.len() == 1 {
            Some(own_name)
        } else {
            None
        },
        None => if key.len() == 1 {
            Some(own_name)
        } else {
            None
        },
    }
}

/// What a key with a name of its own, or one held down with alt, sends.
pub open spec fn special_key(keystroke: Keystroke) -> Option<Seq<u8>> {
    let name = name_of(keystroke.key@);
    let m = keystroke.modifiers;
    if !m.shift && !m.alt && !m.control {
        plain_key(name)
    } else if name == KeyName::Tab && m.shift && !m.alt && !m.control {
        Some(seq![ESC, 0x5bu8, 0x5au8])
    } else if name == KeyName::Enter && m.shift && !m.alt && !m.control {
        Some(seq![0x0au8])
    } else if name == KeyName::Enter && !m.shift && m.alt && !m.control {
        Some(seq![ESC, 0x0du8])
    } else if name == KeyName::Backspace && !m.shift && !m.alt && m.control {
        Some(seq![0x08u8])
    } else if name == KeyName::Backspace && !m.shift && m.alt && !m.control {
        Some(seq![ESC, 0x7fu8])
    } else if name == KeyName::Space && !m.shift && !m.alt && m.control {
        Some(seq![0x00u8])
    } else if csi_form(name) is Some {
        modified_key(name, modifier_number(m) as nat)
    } else if m.alt && !m.control {
        alt_key(keystroke.key@, text_view(keystroke.key_char))
    } else {
        None
    }
}

/// Whether a text is a single character.
fn is_single_char(text: &str) -> (r: bool)
    ensures
        r == (text@.len() == 1),
{
    chars_of(text).len() == 1
}

fn encode_alt_key(key: &str, key_char: &Option<String>) -> (r: Option<Vec<u8>>)
    ensures
        bytes_view(r) == alt_key(key@, text_view(*key_char)),
{
    let single = is_single_char(key);
    if let Some(text) = key_char {
        let text = text.as_str();
        if !text.is_empty() && single && key.is_ascii() && !text.is_ascii() {
            return Some(text_bytes(key, true));
        }
        if !text.is_empty() && !holds_control_char(text) {
            return Some(text_bytes(text, true));
        }
    }
    if single {
        Some(text_bytes(key, true))
    } else {
        None
    }
}

pub fn encode_special_keystroke(keystroke: &Keystroke) -> (r: Option<Vec<u8>>)
    ensures
        bytes_view(r) == special_key(*keystroke),
{
    let name = key_name(keystroke.key.as_str());
    let m = keystroke.modifiers;
    if !m.shift && !m.alt && !m.control {
        return encode_plain_key(name);
    }
    if name == KeyName::Tab && m.shift && !m.alt && !m.control {
        let mut bytes: Vec<u8> = two_bytes(ESC, 0x5b);
        bytes.push(0x5a);
        assert(bytes@ =~= seq![ESC, 0x5bu8, 0x5au8]);
        return Some(bytes);
    }
    if name == KeyName::Enter && m.shift && !m.alt && !m.control {
        return Some(one_byte(0x0a));
    }
    if name == KeyName::Enter && !m.shift && m.alt && !m.control {
        return Some(two_bytes(ESC, 0x0d));
    }
    if name == KeyName::Backspace && !m.shift && !m.alt && m.control {
        return Some(one_byte(0x08));
    }
    if name == KeyName::Backspace && !m.shift && m.alt && !m.control {
        return Some(two_bytes(ESC, 0x7f));
    }
    if name == KeyName::Space && !m.shift && !m.alt && m.control {
        return Some(one_byte(0x00));
    }
    if let Some(bytes) = encode_modified_special_key(
        keystroke.key.as_str(),
        modifier_code(keystroke),
    ) {
        return Some(bytes);
    }
    if m.alt && !m.control {
        return encode_alt_key(keystroke.key.as_str(), &keystroke.key_char);
    }
    None
}

/// The control code of a key. Only letters and a few signs have one; the
/// digits and signs that share a key with them stand in for them, and no other
/// key sends anything with control.
pub open spec fn control_code(c: char) -> Option<u8> {
    if 'a' <= ascii_lower(c) <= 'z' {
        Some((ascii_lower(c) as u32 - 0x60) as u8)
    } else if c == '@' || c == ' ' || c == '2' {
        Some(0x00)
    } else if c == '[' || c == '3' {
        Some(0x1b)
    } else if c == '\\' || c == '4' {
        Some(0x1c)
    } else if c == ']' || c == '5' {
        Some(0x1d)
    } else if c == '^' || c == '6' {
        Some(0x1e)
    } else if c == '_' || c == '?' || c == '7' || c == '-' || c == '/' {
        Some(0x1f)
    } else if c == '8' {
        Some(0x7f)
    } else {
        None
    }
}

pub fn encode_control_char(c: char) -> (r: Option<u8>)
    ensures
        r == control_code(c),
{
    let lower = to_ascii_lowercase(c);
    if 'a' <= lower && lower <= 'z' {
        Some((lower as u32 - 0x60) as u8)
    } else if c == '@' || c == ' ' || c == '2' {
        Some(0x00)
    } else if c == '[' || c == '3' {
        Some(0x1b)
    } else if c == '\\' || c == '4' {
        Some(0x1c)
    } else if c == ']' || c == '5' {
        Some(0x1d)
    } else if c == '^' || c == '6' {
        Some(0x1e)
    } else if c == '_' || c == '?' || c == '7' || c == '-' || c == '/' {
        Some(0x1f)
    } else if c == '8' {
        Some(0x7f)
    } else {
        None
    }
}

/// What a key that types text sends: with control its control code, with an
/// escape before it where alt is held down too; without control its text.
pub open spec fn printable_key(keystroke: Keystroke) -> Option<Seq<u8>> {
    let key = keystroke.key@;
    if keystroke.ime_in_progress {
        None
    } else if keystroke.modifiers.control {
        if key.len() == 1 && control_code(key[0]) is Some {
            let code = control_code(key[0])->0;
            if keystroke.modifiers.alt {
                Some(seq![ESC, code])
            } else {
                Some(seq![code])
            }
        } else {
            None
        }
    } else {
        match text_view(keystroke.key_char) {
            Some(text) => if text.len() > 0 {
                Some(encode_utf8(text))
            } else if key.len() == 1 {
                Some(encode_utf8(key))
            } else {
                None
            },
            None => if key.len() == 1 {
                Some(encode_utf8(key))
            } else {
                None
            },
        }
    }
}

pub fn encode_printable_keystroke(keystroke: &Keystroke) -> (r: Option<Vec<u8>>)
    ensures
        bytes_view(r) == printable_key(*keystroke),
{
    if keystroke.ime_in_progress {
        return None;
    }
    let key = keystroke.key.as_str();
    if keystroke.modifiers.control {
        let chars = chars_of(key);
        if chars.len() != 1 {
            return None;
        }
        return match encode_control_char(chars[0]) {
            Some(code) => if keystroke.modifiers.alt {
                Some(two_bytes(ESC, code))
            } else {
                Some(one_byte(code))
            },
            None => None,
        };
    }
    if let Some(text) = &keystroke.key_char {
        if !text.as_str().is_empty() {
            return Some(text_bytes(text.as_str(), false));
        }
    }
    if is_single_char(key) {
        Some(text_bytes(key, false))
    } else {
        None
    }
}

/// The legacy encoding. Chords with the platform or the function key are the
/// window's and send nothing.
pub open spec fn legacy_key(keystroke: Keystroke) -> Option<Seq<u8>> {
    if keystroke.modifiers.platform || keystroke.modifiers.function {
        None
    } else if special_key(keystroke) is Some {
        special_key(keystroke)
    } else {
        printable_key(keystroke)
    }
}

pub fn encode_keystroke(keystroke: &Keystroke) -> (r: Option<Vec<u8>>)
    ensures
        bytes_view(r) == legacy_key(*keystroke),
{
    if keystroke.modifiers.platform || keystroke.modifiers.function {
        return None;
    }
    if let Some(bytes) = encode_special_keystroke(keystroke) {
        return Some(bytes);
    }
    encode_printable_keystroke(keystroke)
}

// ---------------------------------------------------------------------------
// The kitty keyboard protocol
// ---------------------------------------------------------------------------

pub open spec fn event_number(event_type: KittyKeyEventType) -> nat {
    match event_type {
        KittyKeyEventType::Press => 1,
        KittyKeyEventType::Repeat => 2,
        KittyKeyEventType::Release => 3,
    }
}

pub fn kitty_event_type_code(event_type: KittyKeyEventType) -> (code: u8)
    ensures
        code == event_number(event_type),
{
    match event_type {
        KittyKeyEventType::Press => 1,
        KittyKeyEventType::Repeat => 2,
        KittyKeyEventType::Release => 3,
    }
}

/// The field of the modifiers, with the event where events are reported.
pub open spec fn modifier_field(
    modifier: nat,
    report_events: bool,
    event_type: KittyKeyEventType,
) -> Seq<u8> {
    if report_events {
        decimal(modifier) + seq![0x3au8] + decimal(event_number(event_type))
    } else {
        decimal(modifier)
    }
}

fn push_modifier_field(
    out: &mut Vec<u8>,
    modifier_code: u8,
    report_events: bool,
    event_type: KittyKeyEventType,
)
    ensures
        final(out)@ == old(out)@ + modifier_field(
            modifier_code as nat,
            report_events,
            event_type,
        ),
{
    push_decimal(out, modifier_code as u64);
    if report_events {
        out.push(0x3a);
        push_decimal(out, kitty_event_type_code(event_type) as u64);
    }
    assert(out@ =~= old(out)@ + modifier_field(modifier_code as nat, report_events, event_type));
}

pub fn kitty_modifier_field(
    modifier_code: u8,
    mode: TermMode,
    event_type: KittyKeyEventType,
) -> (field: Vec<u8>)
    ensures
        field@ == modifier_field(modifier_code as nat, mode.report_event_types, event_type),
{
    let mut field: Vec<u8> = Vec::new();
    push_modifier_field(&mut field, modifier_code, mode.report_event_types, event_type);
    assert(field@ =~= modifier_field(modifier_code as nat, mode.report_event_types, event_type));
    field
}

/// The sequence of a key that types no text.
pub open spec fn functional_key(
    name: KeyName,
    modifier: nat,
    report_events: bool,
    event_type: KittyKeyEventType,
) -> Option<Seq<u8>> {
    match numbered_form(name) {
        Some((number, last)) => Some(
            seq![ESC, 0x5bu8] + decimal(number) + seq![0x3bu8] + modifier_field(
                modifier,
                report_events,
                event_type,
            ) + seq![last],
        ),
        None => None,
    }
}

pub fn encode_kitty_functional_key(
    key: &str,
    modifier_code: u8,
    report_events: bool,
    event_type: KittyKeyEventType,
) -> (r: Option<Vec<u8>>)
    ensures
        bytes_view(r) == functional_key(
            name_of(key@),
            modifier_code as nat,
            report_events,
            event_type,
        ),
{
    match numbered_form_of(key_name(key)) {
        Some((number, last)) => {
            let mut bytes: Vec<u8> = two_bytes(ESC, 0x5b);
            push_decimal(&mut bytes, number as u64);
            bytes.push(0x3b);
            push_modifier_field(&mut bytes, modifier_code, report_events, event_type);
            bytes.push(last);
            assert(bytes@ =~= seq![ESC, 0x5bu8] + decimal(number as nat) + seq![0x3bu8]
                + modifier_field(modifier_code as nat, report_events, event_type) + seq![last]);
            Some(bytes)
        },
        None => None,
    }
}

pub open spec fn normal_key_char(c: char) -> char {
    ascii_lower(c)
}

/// The key code of a letter is that of its lower case.
pub fn normalize_key_code_char(ch: char) -> (r: char)
    ensures
        r == normal_key_char(ch),
{
    to_ascii_lowercase(ch)
}

/// The single character of a text that is no control character.
pub open spec fn single_printable(text: Option<Seq<char>>) -> Option<char> {
    match text {
        Some(t) => if t.len() == 1 && !control_char(t[0]) {
            Some(t[0])
        } else {
            None
        },
        None => None,
    }
}

fn single_printable_of(text: &Option<String>) -> (r: Option<char>)
    ensures
        r == single_printable(text_view(*text)),
{
    if let Some(t) = text {
        let chars = chars_of(t.as_str());
        if chars.len() == 1 && !is_control(chars[0]) {
            return Some(chars[0]);
        }
    }
    None
}

/// The code by which the protocol names a key.
pub open spec fn key_code(key: Seq<char>, key_char: Option<Seq<char>>) -> Option<u32> {
    if key == "escape"@ {
        Some(27)
    } else if key == "enter"@ {
        Some(13)
    } else if key == "tab"@ {
        Some(9)
    } else if key == "backspace"@ {
        Some(127)
    } else if key == "space"@ {
        Some(32)
    } else if key == "shift"@ {
        Some(57441)
    } else if key == "control"@ || key == "ctrl"@ {
        Some(57442)
    } else if key == "alt"@ || key == "option"@ {
        Some(57443)
    } else if key == "super"@ || key == "cmd"@ || key == "command"@ {
        Some(57444)
    } else if key.len() == 1 {
        Some(normal_key_char(key[0]) as u32)
    } else {
        match single_printable(key_char) {
            Some(c) => Some(normal_key_char(c) as u32),
            None => None,
        }
    }
}

pub fn kitty_key_code(keystroke: &Keystroke) -> (r: Option<u32>)
    ensures
        r == key_code(keystroke.key@, text_view(keystroke.key_char)),
{
    let key = keystroke.key.as_str();
    if same_text(key, "escape") {
        return Some(27);
    }
    if same_text(key, "enter") {
        return Some(13);
    }
    if same_text(key, "tab") {
        return Some(9);
    }
    if same_text(key, "backspace") {
        return Some(127);
    }
    if same_text(key, "space") {
        return Some(32);
    }
    if same_text(key, "shift") {
        return Some(57441);
    }
    if same_text(key, "control") || same_text(key, "ctrl") {
        return Some(57442);
    }
    if same_text(key, "alt") || same_text(key, "option") {
        return Some(57443);
    }
    if same_text(key, "super") || same_text(key, "cmd") || same_text(key, "command") {
        return Some(57444);
    }
    let chars = chars_of(key);
    if chars.len() == 1 {
        return Some(normalize_key_code_char(chars[0]) as u32);
    }
    match single_printable_of(&keystroke.key_char) {
        Some(c) => Some(normalize_key_code_char(c) as u32),
        None => None,
    }
}

/// The field of the key: its code, and behind a colon the code of what it types
/// with shift where alternate keys are reported.
pub open spec fn key_field(
    code: u32,
    key_char: Option<Seq<char>>,
    shift: bool,
    report_alternate_keys: bool,
) -> Seq<u8> {
    match single_printable(key_char) {
        Some(c) => if report_alternate_keys && shift && c as u32 != code {
            decimal(code as nat) + seq![0x3au8] + decimal(c as u32 as nat)
        } else {
            decimal(code as nat)
        },
        None => decimal(code as nat),
    }
}

pub fn kitty_key_code_field(keystroke: &Keystroke, key_code: u32, mode: TermMode) -> (field: Vec<
    u8,
>)
    ensures
        field@ == key_field(
            key_code,
            text_view(keystroke.key_char),
            keystroke.modifiers.shift,
            mode.report_alternate_keys,
        ),
{
    let mut field: Vec<u8> = Vec::new();
    push_decimal(&mut field, key_code as u64);
    assert(field@ =~= decimal(key_code as nat));
    if mode.report_alternate_keys && keystroke.modifiers.shift {
        if let Some(shifted) = shifted_single_codepoint(keystroke) {
            if shifted != key_code {
                field.push(0x3a);
                push_decimal(&mut field, shifted as u64);
                assert(field@ =~= decimal(key_code as nat) + seq![0x3au8] + decimal(
                    shifted as nat,
                ));
            }
        }
    }
    field
}

pub fn shifted_single_codepoint(keystroke: &Keystroke) -> (r: Option<u32>)
    ensures
        r == match single_printable(text_view(keystroke.key_char)) {
            Some(c) => Some(c as u32),
            None => None,
        },
{
    match single_printable_of(&keystroke.key_char) {
        Some(c) => Some(c as u32),
        None => None,
    }
}

/// The code points of a text in decimal, joined by colons.
pub open spec fn code_points(text: Seq<char>) -> Seq<u8>
    decreases text.len(),
{
    if text.len() == 0 {
        Seq::empty()
    } else if text.len() == 1 {
        decimal(text[0] as u32 as nat)
    } else {
        code_points(text.drop_last()) + seq![0x3au8] + decimal(text.last() as u32 as nat)
    }
}

/// The field of the text that a key types.
pub open spec fn text_field(key_char: Option<Seq<char>>, mode: TermMode) -> Option<Seq<u8>> {
    match key_char {
        Some(text) => if mode.report_all_keys_as_esc && mode.report_associated_text && text.len()
            > 0 && !has_control_char(text) {
            Some(code_points(text))
        } else {
            None
        },
        None => None,
    }
}

pub fn kitty_associated_text_field(keystroke: &Keystroke, mode: TermMode) -> (r: Option<Vec<u8>>)
    ensures
        bytes_view(r) == text_field(text_view(keystroke.key_char), mode),
{
    if !mode.report_all_keys_as_esc || !mode.report_associated_text {
        return None;
    }
    match &keystroke.key_char {
        None => None,
        Some(text) => {
            if text.as_str().is_empty() || holds_control_char(text.as_str()) {
                return None;
            }
            let chars = chars_of(text.as_str());
            let mut field: Vec<u8> = Vec::new();
            let mut i: usize = 0;
            assert(chars@.take(0) =~= Seq::<char>::empty());
            while i < chars.len()
                invariant
                    i <= chars@.len(),
                    field@ == code_points(chars@.take(i as int)),
                decreases chars@.len() - i,
            {
                let ghost before = field@;
                if i > 0 {
                    field.push(0x3a);
                }
                push_decimal(&mut field, chars[i] as u32 as u64);
                proof {
                    let taken = chars@.take(i + 1);
                    assert(taken.drop_last() =~= chars@.take(i as int));
                    assert(taken.last() == chars@[i as int]);
                    if i == 0 {
                        assert(before =~= Seq::<u8>::empty());
                        assert(taken[0] == chars@[0]);
                        assert(field@ =~= decimal(chars@[0] as u32 as nat));
                    } else {
                        assert(field@ =~= before + seq![0x3au8] + decimal(
                            chars@[i as int] as u32 as nat,
                        ));
                    }
                }
                i += 1;
            }
            assert(chars@.take(chars@.len() as int) =~= chars@);
            Some(field)
        },
    }
}

/// A key as a code with its fields. A release types nothing, so it has no field
/// of text.
pub open spec fn csi_u(
    keystroke: Keystroke,
    mode: TermMode,
    event_type: KittyKeyEventType,
) -> Option<Seq<u8>> {
    let key_char = text_view(keystroke.key_char);
    match key_code(keystroke.key@, key_char) {
        None => None,
        Some(code) => {
            let head = seq![ESC, 0x5bu8] + key_field(
                code,
                key_char,
                keystroke.modifiers.shift,
                mode.report_alternate_keys,
            ) + seq![0x3bu8] + modifier_field(
                modifier_number(keystroke.modifiers) as nat,
                mode.report_event_types,
                event_type,
            );
            match text_field(key_char, mode) {
                Some(text) if event_type != KittyKeyEventType::Release => Some(
                    head + seq![0x3bu8] + text + seq![0x75u8],
                ),
                _ => Some(head + seq![0x75u8]),
            }
        },
    }
}

pub fn encode_kitty_csi_u(
    keystroke: &Keystroke,
    mode: TermMode,
    event_type: KittyKeyEventType,
) -> (r: Option<Vec<u8>>)
    ensures
        bytes_view(r) == csi_u(*keystroke, mode, event_type),
{
    let code: u32 = match kitty_key_code(keystroke) {
        Some(code) => code,
        None => return None,
    };
    let mut bytes: Vec<u8> = two_bytes(ESC, 0x5b);
    let key_code_field = kitty_key_code_field(keystroke, code, mode);
    bytes.extend_from_slice(key_code_field.as_slice());
    bytes.push(0x3b);
    let modifiers = kitty_modifier_field(modifier_code(keystroke), mode, event_type);
    bytes.extend_from_slice(modifiers.as_slice());
    let ghost head = seq![ESC, 0x5bu8] + key_code_field@ + seq![0x3bu8] + modifiers@;
    assert(bytes@ =~= head);
    let typed: Option<Vec<u8>> = if event_type == KittyKeyEventType::Release {
        None
    } else {
        kitty_associated_text_field(keystroke, mode)
    };
    match typed {
        Some(text) => {
            bytes.push(0x3b);
            bytes.extend_from_slice(text.as_slice());
            bytes.push(0x75);
            assert(bytes@ =~= head + seq![0x3bu8] + text@ + seq![0x75u8]);
        },
        None => {
            bytes.push(0x75);
            assert(bytes@ =~= head + seq![0x75u8]);
        },
    }
    Some(bytes)
}

/// Whether the legacy encoding of a key could be mistaken for something else.
/// Shift alone is left out: with tab it has a sequence of its own.
pub open spec fn is_ambiguous(keystroke: Keystroke) -> bool {
    let name = name_of(keystroke.key@);
    let m = keystroke.modifiers;
    ||| name == KeyName::Escape
    ||| ((m.alt || m.control) && key_code(keystroke.key@, text_view(keystroke.key_char)) is Some)
}

pub fn should_disambiguate_as_csi_u(keystroke: &Keystroke) -> (r: bool)
    ensures
        r == is_ambiguous(*keystroke),
{
    let name = key_name(keystroke.key.as_str());
    if name == KeyName::Escape {
        return true;
    }
    (keystroke.modifiers.alt || keystroke.modifiers.control) && kitty_key_code(keystroke).is_some()
}

pub open spec fn is_modifier_name(key: Seq<char>) -> bool {
    ||| key == "shift"@
    ||| key == "control"@ || key == "ctrl"@
    ||| key == "alt"@ || key == "option"@
    ||| key == "super"@ || key == "cmd"@ || key == "command"@
}

/// Whether a key is an ordinary one: it has a code and stands for a character.
/// Enter, tab, backspace, escape, the modifiers and the keys with a sequence of
/// their own do not.
pub open spec fn is_text_key(keystroke: Keystroke) -> bool {
    let key = keystroke.key@;
    ||| name_of(key) == KeyName::Space
    ||| (name_of(key) == KeyName::Other && !is_modifier_name(key) && key_code(
        key,
        text_view(keystroke.key_char),
    ) is Some)
}

fn stands_for_text(keystroke: &Keystroke) -> (r: bool)
    ensures
        r == is_text_key(*keystroke),
{
    let key = keystroke.key.as_str();
    match key_name(key) {
        KeyName::Space => true,
        KeyName::Other => {
            let modifier = same_text(key, "shift") || same_text(key, "control") || same_text(
                key,
                "ctrl",
            ) || same_text(key, "alt") || same_text(key, "option") || same_text(key, "super")
                || same_text(key, "cmd") || same_text(key, "command");
            !modifier && kitty_key_code(keystroke).is_some()
        },
        _ => false,
    }
}

/// What the protocol sends for a key, as far as the modes that are on ask for
/// it. Where events are reported, an ordinary key types its text when it goes
/// down and is reported when it comes up.
pub open spec fn kitty_key(
    keystroke: Keystroke,
    mode: TermMode,
    event_type: KittyKeyEventType,
) -> Option<Seq<u8>> {
    let functional = functional_key(
        name_of(keystroke.key@),
        modifier_number(keystroke.modifiers) as nat,
        mode.report_event_types,
        event_type,
    );
    let coded = csi_u(keystroke, mode, event_type);
    let pressed = event_type == KittyKeyEventType::Press;
    if (!pressed && !mode.report_event_types) || keystroke.ime_in_progress {
        None
    } else if mode.report_all_keys_as_esc {
        if coded is Some {
            coded
        } else {
            functional
        }
    } else if mode.report_event_types && !pressed && functional is Some {
        functional
    } else if mode.disambiguate_esc_codes && is_ambiguous(keystroke) {
        coded
    } else if mode.report_event_types && pressed {
        functional
    } else if event_type == KittyKeyEventType::Release && is_text_key(keystroke) {
        coded
    } else {
        None
    }
}

pub fn encode_kitty_keystroke(
    keystroke: &Keystroke,
    mode: TermMode,
    event_type: KittyKeyEventType,
) -> (r: Option<Vec<u8>>)
    ensures
        bytes_view(r) == kitty_key(*keystroke, mode, event_type),
{
    if event_type != KittyKeyEventType::Press && !mode.report_event_types {
        return None;
    }
    if keystroke.ime_in_progress {
        return None;
    }
    let key = keystroke.key.as_str();
    if mode.report_all_keys_as_esc {
        if let Some(bytes) = encode_kitty_csi_u(keystroke, mode, event_type) {
            return Some(bytes);
        }
        return encode_kitty_functional_key(
            key,
            modifier_code(keystroke),
            mode.report_event_types,
            event_type,
        );
    }
    if mode.report_event_types && event_type != KittyKeyEventType::Press {
        if let Some(bytes) = encode_kitty_functional_key(
            key,
            modifier_code(keystroke),
            true,
            event_type,
        ) {
            return Some(bytes);
        }
    }
    if mode.disambiguate_esc_codes && should_disambiguate_as_csi_u(keystroke) {
        return encode_kitty_csi_u(keystroke, mode, event_type);
    }
    if mode.report_event_types && event_type == KittyKeyEventType::Press {
        return encode_kitty_functional_key(key, modifier_code(keystroke), true, event_type);
    }
    if event_type == KittyKeyEventType::Release && stands_for_text(keystroke) {
        return encode_kitty_csi_u(keystroke, mode, event_type);
    }
    None
}

/// What is sent for a key event: the protocol's encoding where it has one, else
/// the legacy one, which knows no releases.
pub open spec fn encoded_key(
    keystroke: Keystroke,
    mode: TermMode,
    event_type: KittyKeyEventType,
) -> Option<Seq<u8>> {
    if keystroke.modifiers.platform || keystroke.modifiers.function {
        None
    } else if mode.kitty() && kitty_key(keystroke, mode, event_type) is Some {
        kitty_key(keystroke, mode, event_type)
    } else if event_type == KittyKeyEventType::Release {
        None
    } else {
        legacy_key(keystroke)
    }
}

pub fn encode_keystroke_with_mode(
    keystroke: &Keystroke,
    mode: TermMode,
    event_type: KittyKeyEventType,
) -> (r: Option<Vec<u8>>)
    ensures
        bytes_view(r) == encoded_key(*keystroke, mode, event_type),
{
    if keystroke.modifiers.platform || keystroke.modifiers.function {
        return None;
    }
    if mode.uses_kitty_keyboard() {
        if let Some(bytes) = encode_kitty_keystroke(keystroke, mode, event_type) {
            return Some(bytes);
        }
    }
    match event_type {
        KittyKeyEventType::Release => None,
        KittyKeyEventType::Press => encode_keystroke(keystroke),
        KittyKeyEventType::Repeat => encode_keystroke(keystroke),
    }
}

// ---------------------------------------------------------------------------
// Keys that are left to the input method, and shortcuts
// ---------------------------------------------------------------------------

/// The keys that control a terminal and type no text.
pub open spec fn is_control_key(name: KeyName) -> bool {
    match name {
        KeyName::Enter => true,
        KeyName::Tab => true,
        KeyName::Backspace => true,
        KeyName::Escape => true,
        KeyName::Left => true,
        KeyName::Right => true,
        KeyName::Up => true,
        KeyName::Down => true,
        KeyName::Home => true,
        KeyName::End => true,
        KeyName::PageUp => true,
        KeyName::PageDown => true,
        KeyName::Delete => true,
        KeyName::Insert => true,
        _ => false,
    }
}

pub fn is_terminal_control_key_name(key: &str) -> (r: bool)
    ensures
        r == is_control_key(name_of(key@)),
{
    match key_name(key) {
        KeyName::Enter => true,
        KeyName::Tab => true,
        KeyName::Backspace => true,
        KeyName::Escape => true,
        KeyName::Left => true,
        KeyName::Right => true,
        KeyName::Up => true,
        KeyName::Down => true,
        KeyName::Home => true,
        KeyName::End => true,
        KeyName::PageUp => true,
        KeyName::PageDown => true,
        KeyName::Delete => true,
        KeyName::Insert => true,
        _ => false,
    }
}

/// Whether a key is left to the text input of the platform, which serves input
/// methods and assistive tools. Alt belongs to the terminal where it is meta;
/// where it is not, a key with alt may start a composition without typing
/// anything yet (a dead key).
pub open spec fn defers_to_text_input(
    keystroke: Keystroke,
    option_as_meta: bool,
    has_text_input: bool,
) -> bool {
    let m = keystroke.modifiers;
    &&& has_text_input
    &&& !m.control && !m.platform && !m.function
    &&& !(m.alt && option_as_meta)
    &&& !is_control_key(name_of(keystroke.key@))
    &&& match text_view(keystroke.key_char) {
        Some(text) => text.len() > 0 && !has_control_char(text),
        None => m.alt && keystroke.key@.len() == 1,
    }
}

pub fn should_defer_to_text_input(
    keystroke: &Keystroke,
    option_as_meta: bool,
    has_text_input: bool,
) -> (r: bool)
    ensures
        r == defers_to_text_input(*keystroke, option_as_meta, has_text_input),
{
    let m = keystroke.modifiers;
    if !has_text_input || m.control || m.platform || m.function {
        return false;
    }
    if m.alt && option_as_meta {
        return false;
    }
    if is_terminal_control_key_name(keystroke.key.as_str()) {
        return false;
    }
    match &keystroke.key_char {
        Some(text) => !text.as_str().is_empty() && !holds_control_char(text.as_str()),
        None => m.alt && is_single_char(keystroke.key.as_str()),
    }
}

/// Whether a key is one of some names, whatever the case of its letters.
pub open spec fn is_one_of(key: Seq<char>, accepted: Seq<&str>) -> bool {
    exists|i: int|
        0 <= i < accepted.len() && ascii_lower_text((#[trigger] accepted[i])@) == ascii_lower_text(
            key,
        )
}

pub fn key_matches(key: &str, accepted: &[&str]) -> (r: bool)
    ensures
        r == is_one_of(key@, accepted@),
{
    let mut i: usize = 0;
    while i < accepted.len()
        invariant
            i <= accepted@.len(),
            forall|k: int|
                0 <= k < i ==> ascii_lower_text((#[trigger] accepted@[k])@) != ascii_lower_text(
                    key@,
                ),
        decreases accepted@.len() - i,
    {
        if same_text_ignoring_case(accepted[i], key) {
            assert(ascii_lower_text(accepted@[i as int]@) == ascii_lower_text(key@));
            return true;
        }
        i += 1;
    }
    false
}

/// Command and V, or control, shift and V.
pub open spec fn paste_shortcut(keystroke: Keystroke) -> bool {
    let m = keystroke.modifiers;
    ascii_lower_text(keystroke.key@) == ascii_lower_text("v"@) && ((m.platform && !m.control) || (
    m.control && m.shift))
}

pub fn is_paste_shortcut(keystroke: &Keystroke) -> (r: bool)
    ensures
        r == paste_shortcut(*keystroke),
{
    let is_v = same_text_ignoring_case(keystroke.key.as_str(), "v");
    let m = keystroke.modifiers;
    let mac_paste = m.platform && !m.control && is_v;
    let ctrl_shift_paste = m.control && m.shift && is_v;
    mac_paste || ctrl_shift_paste
}

/// Command and A, where the platform has a command key.
pub open spec fn select_all_shortcut(keystroke: Keystroke, has_command_key: bool) -> bool {
    let m = keystroke.modifiers;
    has_command_key && m.platform && !m.control && !m.alt && !m.shift && !m.function
        && ascii_lower_text(keystroke.key@) == ascii_lower_text("a"@)
}

pub fn is_select_all_shortcut(keystroke: &Keystroke, has_command_key: bool) -> (r: bool)
    ensures
        r == select_all_shortcut(*keystroke, has_command_key),
{
    let is_a = same_text_ignoring_case(keystroke.key.as_str(), "a");
    let m = keystroke.modifiers;
    has_command_key && m.platform && !m.control && !m.alt && !m.shift && !m.function && is_a
}

pub open spec fn platform_shortcut(m: Modifiers) -> bool {
    m.platform && !m.control && !m.alt && !m.function
}

pub fn is_platform_shortcut(modifiers: Modifiers) -> (r: bool)
    ensures
        r == platform_shortcut(modifiers),
{
    modifiers.platform && !modifiers.control && !modifiers.alt && !modifiers.function
}

/// Whether a key is one of some names, or types one of two texts.
pub open spec fn names_or_types(
    keystroke: Keystroke,
    names: Seq<&str>,
    first: Seq<char>,
    second: Seq<char>,
) -> bool {
    is_one_of(keystroke.key@, names) || match text_view(keystroke.key_char) {
        Some(text) => text == first || text == second,
        None => false,
    }
}

pub open spec fn zoom_in_shortcut(keystroke: Keystroke) -> bool {
    platform_shortcut(keystroke.modifiers) && names_or_types(
        keystroke,
        seq!["=", "equal", "plus", "+"],
        "="@,
        "+"@,
    )
}

pub fn is_zoom_in_shortcut(keystroke: &Keystroke) -> (r: bool)
    ensures
        r == zoom_in_shortcut(*keystroke),
{
    if !is_platform_shortcut(keystroke.modifiers) {
        return false;
    }
    let names: [&str; 4] = ["=", "equal", "plus", "+"];
    assert(names@ =~= seq!["=", "equal", "plus", "+"]);
    if key_matches(keystroke.key.as_str(), &names) {
        return true;
    }
    match &keystroke.key_char {
        Some(text) => same_text(text.as_str(), "=") || same_text(text.as_str(), "+"),
        None => false,
    }
}

pub open spec fn zoom_out_shortcut(keystroke: Keystroke) -> bool {
    platform_shortcut(keystroke.modifiers) && names_or_types(
        keystroke,
        seq!["-", "minus", "_"],
        "-"@,
        "_"@,
    )
}

pub fn is_zoom_out_shortcut(keystroke: &Keystroke) -> (r: bool)
    ensures
        r == zoom_out_shortcut(*keystroke),
{
    if !is_platform_shortcut(keystroke.modifiers) {
        return false;
    }
    let names: [&str; 3] = ["-", "minus", "_"];
    assert(names@ =~= seq!["-", "minus", "_"]);
    if key_matches(keystroke.key.as_str(), &names) {
        return true;
    }
    match &keystroke.key_char {
        Some(text) => same_text(text.as_str(), "-") || same_text(text.as_str(), "_"),
        None => false,
    }
}

// ---------------------------------------------------------------------------
// Laws
// ---------------------------------------------------------------------------

/// Law: keyboard input is legacy by default. Without a mode of the kitty
/// protocol, presses and repeats are encoded as ever, and releases not at all.
pub proof fn law_legacy_by_default(
    keystroke: Keystroke,
    mode: TermMode,
    event_type: KittyKeyEventType,
)
    requires
        !mode.kitty(),
    ensures
        event_type != KittyKeyEventType::Release ==> encoded_key(keystroke, mode, event_type)
            == legacy_key(keystroke),
        event_type == KittyKeyEventType::Release ==> encoded_key(keystroke, mode, event_type)
            is None,
{
}

/// Law: chords with the platform or the function key send nothing, whatever
/// modes are on.
pub proof fn law_window_chords_send_nothing(
    keystroke: Keystroke,
    mode: TermMode,
    event_type: KittyKeyEventType,
)
    requires
        keystroke.modifiers.platform || keystroke.modifiers.function,
    ensures
        encoded_key(keystroke, mode, event_type) is None,
{
}

/// Law: no key but M sends a carriage return with control, no key but S stops
/// the output, and only letters send the codes of letters.
pub proof fn law_control_codes_are_the_keys_own(c: char)
    ensures
        control_code(c) == Some(0x0du8) ==> ascii_lower(c) == 'm',
        control_code(c) == Some(0x13u8) ==> ascii_lower(c) == 's',
        (control_code(c) matches Some(code) && 1 <= code <= 26) ==> 'a' <= ascii_lower(c) <= 'z',
{
}

/// Law: where events are reported, no ordinary key that goes down stays down for
/// the program: its release is reported as the code of the key, its modifiers
/// and the event, and carries no text.
pub proof fn law_releases_are_reported(keystroke: Keystroke, mode: TermMode)
    requires
        mode.report_event_types,
        is_text_key(keystroke),
        !keystroke.ime_in_progress,
        !keystroke.modifiers.platform,
        !keystroke.modifiers.function,
    ensures
        key_code(keystroke.key@, text_view(keystroke.key_char)) matches Some(code)
            && encoded_key(keystroke, mode, KittyKeyEventType::Release) == Some(
            seq![ESC, 0x5bu8] + key_field(
                code,
                text_view(keystroke.key_char),
                keystroke.modifiers.shift,
                mode.report_alternate_keys,
            ) + seq![0x3bu8] + modifier_field(
                modifier_number(keystroke.modifiers) as nat,
                true,
                KittyKeyEventType::Release,
            ) + seq![0x75u8],
        ),
{
}

/// Law: a key with modifiers never reads like a report of the cursor position,
/// which ends in `R`.
pub proof fn law_modified_keys_are_no_cursor_reports(name: KeyName, modifier: nat)
    ensures
        modified_key(name, modifier) matches Some(bytes) ==> bytes.last() != 0x52,
{
}

/// Law: a key that advances a composition of the input method leaks no text.
/// Without control, alt, and a name of its own it sends nothing.
pub proof fn law_composition_leaks_nothing(
    keystroke: Keystroke,
    mode: TermMode,
    event_type: KittyKeyEventType,
)
    requires
        keystroke.ime_in_progress,
        !keystroke.modifiers.alt,
        name_of(keystroke.key@) == KeyName::Other,
    ensures
        encoded_key(keystroke, mode, event_type) is None,
{
}

/// Law: a key is never both left to the text input and claimed by alt as meta.
pub proof fn law_meta_keys_stay_with_the_terminal(keystroke: Keystroke, has_text_input: bool)
    requires
        keystroke.modifiers.alt,
    ensures
        !defers_to_text_input(keystroke, true, has_text_input),
{
}

/// The named keys are those with these names.
proof fn lemma_key_names(key: Seq<char>)
    ensures
        key.len() <= 1 ==> name_of(key) == KeyName::Other,
        name_of("space"@) == KeyName::Space,
        name_of("enter"@) == KeyName::Enter,
        name_of("tab"@) == KeyName::Tab,
        name_of("backspace"@) == KeyName::Backspace,
        name_of("escape"@) == KeyName::Escape,
        name_of("left"@) == KeyName::Left,
        name_of("right"@) == KeyName::Right,
        name_of("up"@) == KeyName::Up,
        name_of("down"@) == KeyName::Down,
        name_of("home"@) == KeyName::Home,
        name_of("end"@) == KeyName::End,
        name_of("insert"@) == KeyName::Insert,
        name_of("delete"@) == KeyName::Delete,
        name_of("pageup"@) == KeyName::PageUp,
        name_of("pagedown"@) == KeyName::PageDown,
        name_of("f1"@) == KeyName::F1,
        name_of("f2"@) == KeyName::F2,
        name_of("f3"@) == KeyName::F3,
        name_of("f4"@) == KeyName::F4,
        name_of("f5"@) == KeyName::F5,
        name_of("f6"@) == KeyName::F6,
        name_of("f7"@) == KeyName::F7,
        name_of("f8"@) == KeyName::F8,
        name_of("f9"@) == KeyName::F9,
        name_of("f10"@) == KeyName::F10,
        name_of("f11"@) == KeyName::F11,
        name_of("f12"@) == KeyName::F12,
{
    reveal_strlit("space");
    reveal_strlit("enter");
    reveal_strlit("tab");
    reveal_strlit("backspace");
    reveal_strlit("escape");
    reveal_strlit("left");
    reveal_strlit("right");
    reveal_strlit("up");
    reveal_strlit("down");
    reveal_strlit("home");
    reveal_strlit("end");
    reveal_strlit("insert");
    reveal_strlit("delete");
    reveal_strlit("pageup");
    reveal_strlit("pagedown");
    reveal_strlit("f1");
    reveal_strlit("f2");
    reveal_strlit("f3");
    reveal_strlit("f4");
    reveal_strlit("f5");
    reveal_strlit("f6");
    reveal_strlit("f7");
    reveal_strlit("f8");
    reveal_strlit("f9");
    reveal_strlit("f10");
    reveal_strlit("f11");
    reveal_strlit("f12");
    assert("space"@.len() == 5);
    assert("enter"@.len() == 5);
    assert("tab"@.len() == 3);
    assert("backspace"@.len() == 9);
    assert("escape"@.len() == 6);
    assert("left"@.len() == 4);
    assert("right"@.len() == 5);
    assert("up"@.len() == 2);
    assert("down"@.len() == 4);
    assert("home"@.len() == 4);
    assert("end"@.len() == 3);
    assert("insert"@.len() == 6);
    assert("delete"@.len() == 6);
    assert("pageup"@.len() == 6);
    assert("pagedown"@.len() == 8);
    assert("f1"@.len() == 2);
    assert("f2"@.len() == 2);
    assert("f3"@.len() == 2);
    assert("f4"@.len() == 2);
    assert("f5"@.len() == 2);
    assert("f6"@.len() == 2);
    assert("f7"@.len() == 2);
    assert("f8"@.len() == 2);
    assert("f9"@.len() == 2);
    assert("f10"@.len() == 3);
    assert("f11"@.len() == 3);
    assert("f12"@.len() == 3);
    assert("space"@[0] == 's');
    assert("enter"@[0] == 'e');
    assert("right"@[0] == 'r');
    assert("escape"@[0] == 'e');
    assert("insert"@[0] == 'i');
    assert("delete"@[0] == 'd');
    assert("pageup"@[0] == 'p');
    assert("left"@[0] == 'l');
    assert("down"@[0] == 'd');
    assert("home"@[0] == 'h');
    assert("tab"@[0] == 't');
    assert("end"@[0] == 'e');
    assert("up"@[0] == 'u');
    assert("f1"@[0] == 'f' && "f1"@[1] == '1');
    assert("f2"@[0] == 'f' && "f2"@[1] == '2');
    assert("f3"@[0] == 'f' && "f3"@[1] == '3');
    assert("f4"@[0] == 'f' && "f4"@[1] == '4');
    assert("f5"@[0] == 'f' && "f5"@[1] == '5');
    assert("f6"@[0] == 'f' && "f6"@[1] == '6');
    assert("f7"@[0] == 'f' && "f7"@[1] == '7');
    assert("f8"@[0] == 'f' && "f8"@[1] == '8');
    assert("f9"@[0] == 'f' && "f9"@[1] == '9');
    assert("f10"@[0] == 'f' && "f10"@[2] == '0');
    assert("f11"@[0] == 'f' && "f11"@[2] == '1');
    assert("f12"@[0] == 'f' && "f12"@[2] == '2');
    assert("backspace"@[0] == 'b');
    assert("pagedown"@[0] == 'p');
}

proof fn lemma_one_digit(n: nat)
    requires
        n < 10,
    ensures
        decimal(n) == seq![(0x30 + n) as u8],
{
}

proof fn lemma_two_digits(n: nat)
    requires
        10 <= n < 100,
    ensures
        decimal(n) == seq![(0x30 + n / 10) as u8, (0x30 + n % 10) as u8],
{
    lemma_one_digit(n / 10);
    assert(decimal(n) =~= seq![(0x30 + n / 10) as u8, (0x30 + n % 10) as u8]);
}

/// Law: control with a letter, in either case, sends the one byte that is its
/// place in the alphabet, from 1 for A to 26 for Z; with alt, an escape before it.
pub proof fn law_control_with_a_letter(keystroke: Keystroke)
    requires
        keystroke.key@.len() == 1,
        keystroke.modifiers.control,
        !keystroke.modifiers.platform,
        !keystroke.modifiers.function,
        !keystroke.ime_in_progress,
    ensures
        ({
            let letter = keystroke.key@[0];
            let place = if 'a' <= letter <= 'z' {
                letter as u32 - 'a' as u32 + 1
            } else {
                letter as u32 - 'A' as u32 + 1
            };
            ('a' <= letter <= 'z' || 'A' <= letter <= 'Z') ==> {
                &&& 1 <= place <= 26
                &&& control_code(letter) == Some(place as u8)
                &&& legacy_key(keystroke) == Some(
                    if keystroke.modifiers.alt {
                        seq![0x1bu8, place as u8]
                    } else {
                        seq![place as u8]
                    },
                )
            }
        }),
{
    lemma_key_names(keystroke.key@);
}

/// Law: control with the signs that stand for a control code sends this code; the
/// digits from 2 to 8, the hyphen, the slash and the question mark stand in for
/// such signs; and no other sign of ASCII has one.
pub proof fn law_control_with_a_sign(c: char)
    ensures
        c == '@' || c == ' ' || c == '2' ==> control_code(c) == Some(0u8),
        c == '[' || c == '3' ==> control_code(c) == Some(0x1bu8),
        c == '\\' || c == '4' ==> control_code(c) == Some(0x1cu8),
        c == ']' || c == '5' ==> control_code(c) == Some(0x1du8),
        c == '^' || c == '6' ==> control_code(c) == Some(0x1eu8),
        c == '_' || c == '7' || c == '-' || c == '/' || c == '?' ==> control_code(c) == Some(
            0x1fu8,
        ),
        c == '8' ==> control_code(c) == Some(0x7fu8),
        !('a' <= c <= 'z') && !('A' <= c <= 'Z') && !seq![
            '@',
            ' ',
            '2',
            '[',
            '3',
            '\\',
            '4',
            ']',
            '5',
            '^',
            '6',
            '_',
            '7',
            '-',
            '/',
            '?',
            '8',
        ].contains(c) ==> control_code(c) is None,
{
    let signs = seq![
        '@',
        ' ',
        '2',
        '[',
        '3',
        '\\',
        '4',
        ']',
        '5',
        '^',
        '6',
        '_',
        '7',
        '-',
        '/',
        '?',
        '8',
    ];
    assert(signs[0] == '@' && signs[1] == ' ' && signs[2] == '2' && signs[3] == '[');
    assert(signs[4] == '3' && signs[5] == '\\' && signs[6] == '4' && signs[7] == ']');
    assert(signs[8] == '5' && signs[9] == '^' && signs[10] == '6' && signs[11] == '_');
    assert(signs[12] == '7' && signs[13] == '-' && signs[14] == '/' && signs[15] == '?');
    assert(signs[16] == '8');
}

/// Whether a key is pressed without a modifier that changes what it sends.
pub open spec fn is_bare(keystroke: Keystroke) -> bool {
    let m = keystroke.modifiers;
    !m.shift && !m.alt && !m.control && !m.platform && !m.function
}

/// Law: what the keys with a name of their own send without modifiers.
pub proof fn law_named_keys(keystroke: Keystroke)
    requires
        is_bare(keystroke),
    ensures
        ({
            let key = keystroke.key@;
            let sent = legacy_key(keystroke);
            &&& key == "space"@ ==> sent == Some(seq![0x20u8])
            &&& key == "enter"@ ==> sent == Some(seq![0x0du8])
            &&& key == "tab"@ ==> sent == Some(seq![0x09u8])
            &&& key == "backspace"@ ==> sent == Some(seq![0x7fu8])
            &&& key == "escape"@ ==> sent == Some(seq![0x1bu8])
            &&& key == "up"@ ==> sent == Some(seq![0x1bu8, 0x5b, 0x41])
            &&& key == "down"@ ==> sent == Some(seq![0x1bu8, 0x5b, 0x42])
            &&& key == "right"@ ==> sent == Some(seq![0x1bu8, 0x5b, 0x43])
            &&& key == "left"@ ==> sent == Some(seq![0x1bu8, 0x5b, 0x44])
            &&& key == "home"@ ==> sent == Some(seq![0x1bu8, 0x5b, 0x48])
            &&& key == "end"@ ==> sent == Some(seq![0x1bu8, 0x5b, 0x46])
            &&& key == "insert"@ ==> sent == Some(seq![0x1bu8, 0x5b, 0x32, 0x7e])
            &&& key == "delete"@ ==> sent == Some(seq![0x1bu8, 0x5b, 0x33, 0x7e])
            &&& key == "pageup"@ ==> sent == Some(seq![0x1bu8, 0x5b, 0x35, 0x7e])
            &&& key == "pagedown"@ ==> sent == Some(seq![0x1bu8, 0x5b, 0x36, 0x7e])
            &&& key == "f1"@ ==> sent == Some(seq![0x1bu8, 0x4f, 0x50])
            &&& key == "f2"@ ==> sent == Some(seq![0x1bu8, 0x4f, 0x51])
            &&& key == "f3"@ ==> sent == Some(seq![0x1bu8, 0x4f, 0x52])
            &&& key == "f4"@ ==> sent == Some(seq![0x1bu8, 0x4f, 0x53])
            &&& key == "f5"@ ==> sent == Some(seq![0x1bu8, 0x5b, 0x31, 0x35, 0x7e])
            &&& key == "f6"@ ==> sent == Some(seq![0x1bu8, 0x5b, 0x31, 0x37, 0x7e])
            &&& key == "f7"@ ==> sent == Some(seq![0x1bu8, 0x5b, 0x31, 0x38, 0x7e])
            &&& key == "f8"@ ==> sent == Some(seq![0x1bu8, 0x5b, 0x31, 0x39, 0x7e])
            &&& key == "f9"@ ==> sent == Some(seq![0x1bu8, 0x5b, 0x32, 0x30, 0x7e])
            &&& key == "f10"@ ==> sent == Some(seq![0x1bu8, 0x5b, 0x32, 0x31, 0x7e])
            &&& key == "f11"@ ==> sent == Some(seq![0x1bu8, 0x5b, 0x32, 0x33, 0x7e])
            &&& key == "f12"@ ==> sent == Some(seq![0x1bu8, 0x5b, 0x32, 0x34, 0x7e])
        }),
{
    lemma_key_names(keystroke.key@);
    lemma_one_digit(2);
    lemma_one_digit(3);
    lemma_one_digit(5);
    lemma_one_digit(6);
    lemma_two_digits(15);
    lemma_two_digits(17);
    lemma_two_digits(18);
    lemma_two_digits(19);
    lemma_two_digits(20);
    lemma_two_digits(21);
    lemma_two_digits(23);
    lemma_two_digits(24);
    let head = seq![0x1bu8, 0x5bu8];
    let end = seq![0x7eu8];
    assert(head + decimal(2) + end =~= seq![0x1bu8, 0x5b, 0x32, 0x7e]);
    assert(head + decimal(3) + end =~= seq![0x1bu8, 0x5b, 0x33, 0x7e]);
    assert(head + decimal(5) + end =~= seq![0x1bu8, 0x5b, 0x35, 0x7e]);
    assert(head + decimal(6) + end =~= seq![0x1bu8, 0x5b, 0x36, 0x7e]);
    assert(head + decimal(15) + end =~= seq![0x1bu8, 0x5b, 0x31, 0x35, 0x7e]);
    assert(head + decimal(17) + end =~= seq![0x1bu8, 0x5b, 0x31, 0x37, 0x7e]);
    assert(head + decimal(18) + end =~= seq![0x1bu8, 0x5b, 0x31, 0x38, 0x7e]);
    assert(head + decimal(19) + end =~= seq![0x1bu8, 0x5b, 0x31, 0x39, 0x7e]);
    assert(head + decimal(20) + end =~= seq![0x1bu8, 0x5b, 0x32, 0x30, 0x7e]);
    assert(head + decimal(21) + end =~= seq![0x1bu8, 0x5b, 0x32, 0x31, 0x7e]);
    assert(head + decimal(23) + end =~= seq![0x1bu8, 0x5b, 0x32, 0x33, 0x7e]);
    assert(head + decimal(24) + end =~= seq![0x1bu8, 0x5b, 0x32, 0x34, 0x7e]);
}

/// Law: what tells the modifiers is the digit one more than the sum of one for
/// shift, two for alt and four for control; so each combination has its own.
pub proof fn law_modifiers_have_a_digit(m: Modifiers)
    ensures
        !m.shift && !m.alt && !m.control ==> modifier_number(m) == 1,
        m.shift && !m.alt && !m.control ==> modifier_number(m) == 2,
        !m.shift && m.alt && !m.control ==> modifier_number(m) == 3,
        m.shift && m.alt && !m.control ==> modifier_number(m) == 4,
        !m.shift && !m.alt && m.control ==> modifier_number(m) == 5,
        m.shift && !m.alt && m.control ==> modifier_number(m) == 6,
        !m.shift && m.alt && m.control ==> modifier_number(m) == 7,
        m.shift && m.alt && m.control ==> modifier_number(m) == 8,
{
}

/// Law: with modifiers the keys that move and the function keys send their number,
/// the digit of the modifiers, and their last byte.
pub proof fn law_named_keys_with_modifiers(keystroke: Keystroke)
    requires
        !keystroke.modifiers.platform,
        !keystroke.modifiers.function,
        keystroke.modifiers.shift || keystroke.modifiers.alt || keystroke.modifiers.control,
    ensures
        ({
            let key = keystroke.key@;
            let sent = legacy_key(keystroke);
            let d = (0x30 + modifier_number(keystroke.modifiers)) as u8;
            &&& key == "up"@ ==> sent == Some(seq![0x1bu8, 0x5b, 0x31, 0x3b, d, 0x41])
            &&& key == "down"@ ==> sent == Some(seq![0x1bu8, 0x5b, 0x31, 0x3b, d, 0x42])
            &&& key == "right"@ ==> sent == Some(seq![0x1bu8, 0x5b, 0x31, 0x3b, d, 0x43])
            &&& key == "left"@ ==> sent == Some(seq![0x1bu8, 0x5b, 0x31, 0x3b, d, 0x44])
            &&& key == "home"@ ==> sent == Some(seq![0x1bu8, 0x5b, 0x31, 0x3b, d, 0x48])
            &&& key == "end"@ ==> sent == Some(seq![0x1bu8, 0x5b, 0x31, 0x3b, d, 0x46])
            &&& key == "insert"@ ==> sent == Some(seq![0x1bu8, 0x5b, 0x32, 0x3b, d, 0x7e])
            &&& key == "delete"@ ==> sent == Some(seq![0x1bu8, 0x5b, 0x33, 0x3b, d, 0x7e])
            &&& key == "pageup"@ ==> sent == Some(seq![0x1bu8, 0x5b, 0x35, 0x3b, d, 0x7e])
            &&& key == "pagedown"@ ==> sent == Some(seq![0x1bu8, 0x5b, 0x36, 0x3b, d, 0x7e])
            &&& key == "f1"@ ==> sent == Some(seq![0x1bu8, 0x5b, 0x31, 0x3b, d, 0x50])
            &&& key == "f2"@ ==> sent == Some(seq![0x1bu8, 0x5b, 0x31, 0x3b, d, 0x51])
            &&& key == "f3"@ ==> sent == Some(seq![0x1bu8, 0x5b, 0x31, 0x33, 0x3b, d, 0x7e])
            &&& key == "f4"@ ==> sent == Some(seq![0x1bu8, 0x5b, 0x31, 0x3b, d, 0x53])
            &&& key == "f5"@ ==> sent == Some(seq![0x1bu8, 0x5b, 0x31, 0x35, 0x3b, d, 0x7e])
            &&& key == "f6"@ ==> sent == Some(seq![0x1bu8, 0x5b, 0x31, 0x37, 0x3b, d, 0x7e])
            &&& key == "f7"@ ==> sent == Some(seq![0x1bu8, 0x5b, 0x31, 0x38, 0x3b, d, 0x7e])
            &&& key == "f8"@ ==> sent == Some(seq![0x1bu8, 0x5b, 0x31, 0x39, 0x3b, d, 0x7e])
            &&& key == "f9"@ ==> sent == Some(seq![0x1bu8, 0x5b, 0x32, 0x30, 0x3b, d, 0x7e])
            &&& key == "f10"@ ==> sent == Some(seq![0x1bu8, 0x5b, 0x32, 0x31, 0x3b, d, 0x7e])
            &&& key == "f11"@ ==> sent == Some(seq![0x1bu8, 0x5b, 0x32, 0x33, 0x3b, d, 0x7e])
            &&& key == "f12"@ ==> sent == Some(seq![0x1bu8, 0x5b, 0x32, 0x34, 0x3b, d, 0x7e])
        }),
{
    lemma_key_names(keystroke.key@);
    let m = modifier_number(keystroke.modifiers) as nat;
    let d = (0x30 + m) as u8;
    lemma_one_digit(m);
    lemma_one_digit(1);
    lemma_one_digit(2);
    lemma_one_digit(3);
    lemma_one_digit(5);
    lemma_one_digit(6);
    lemma_two_digits(13);
    lemma_two_digits(15);
    lemma_two_digits(17);
    lemma_two_digits(18);
    lemma_two_digits(19);
    lemma_two_digits(20);
    lemma_two_digits(21);
    lemma_two_digits(23);
    lemma_two_digits(24);
    let head = seq![0x1bu8, 0x5bu8];
    assert forall|number: nat, last: u8| number < 10 implies #[trigger] (head + decimal(number)
        + seq![0x3bu8] + decimal(m) + seq![last]) == seq![
        0x1bu8,
        0x5b,
        (0x30 + number) as u8,
        0x3b,
        d,
        last,
    ] by {
        lemma_one_digit(number);
        assert(head + decimal(number) + seq![0x3bu8] + decimal(m) + seq![last] =~= seq![
            0x1bu8,
            0x5b,
            (0x30 + number) as u8,
            0x3b,
            d,
            last,
        ]);
    }
    assert forall|number: nat, last: u8| 10 <= number < 100 implies #[trigger] (head + decimal(
        number,
    ) + seq![0x3bu8] + decimal(m) + seq![last]) == seq![
        0x1bu8,
        0x5b,
        (0x30 + number / 10) as u8,
        (0x30 + number % 10) as u8,
        0x3b,
        d,
        last,
    ] by {
        lemma_two_digits(number);
        assert(head + decimal(number) + seq![0x3bu8] + decimal(m) + seq![last] =~= seq![
            0x1bu8,
            0x5b,
            (0x30 + number / 10) as u8,
            (0x30 + number % 10) as u8,
            0x3b,
            d,
            last,
        ]);
    }
}

/// Law: the chords of tab, enter, backspace and space that have a code of their
/// own: shift and tab goes back, shift and enter breaks the line, alt puts an
/// escape before enter and backspace, control and backspace deletes a word,
/// control and space sends the zero byte.
pub proof fn law_chords_of_editing_keys(keystroke: Keystroke)
    requires
        !keystroke.modifiers.platform,
        !keystroke.modifiers.function,
    ensures
        ({
            let key = keystroke.key@;
            let m = keystroke.modifiers;
            let shift = m.shift && !m.alt && !m.control;
            let alt = m.alt && !m.shift && !m.control;
            let control = m.control && !m.shift && !m.alt;
            let sent = legacy_key(keystroke);
            &&& key == "tab"@ && shift ==> sent == Some(seq![0x1bu8, 0x5b, 0x5a])
            &&& key == "enter"@ && shift ==> sent == Some(seq![0x0au8])
            &&& key == "enter"@ && alt ==> sent == Some(seq![0x1bu8, 0x0d])
            &&& key == "backspace"@ && alt ==> sent == Some(seq![0x1bu8, 0x7f])
            &&& key == "backspace"@ && control ==> sent == Some(seq![0x08u8])
            &&& key == "space"@ && control ==> sent == Some(seq![0x00u8])
        }),
{
    lemma_key_names(keystroke.key@);
}

/// Law: a key without a name of its own sends, without control and alt, the text
/// that it types, whatever that is; where it types nothing, a key that is named by
/// one character sends this character.
pub proof fn law_keys_send_what_they_type(keystroke: Keystroke)
    requires
        name_of(keystroke.key@) == KeyName::Other,
        !keystroke.modifiers.control,
        !keystroke.modifiers.alt,
        !keystroke.modifiers.platform,
        !keystroke.modifiers.function,
        !keystroke.ime_in_progress,
    ensures
        keystroke.key_char is Some && (keystroke.key_char->0)@.len() > 0 ==> legacy_key(keystroke)
            == Some(encode_utf8((keystroke.key_char->0)@)),
        (keystroke.key_char is None || (keystroke.key_char->0)@.len() == 0)
            && keystroke.key@.len() == 1 ==> legacy_key(keystroke) == Some(
            encode_utf8(keystroke.key@),
        ),
        (keystroke.key_char is None || (keystroke.key_char->0)@.len() == 0)
            && keystroke.key@.len() != 1 ==> legacy_key(keystroke) is None,
{
}

/// Law: alt puts an escape before what a key types; but where a key of ASCII types
/// something beyond ASCII with alt, or nothing, before the key itself.
pub proof fn law_alt_puts_an_escape_before(keystroke: Keystroke)
    requires
        keystroke.key@.len() == 1,
        keystroke.modifiers.alt,
        !keystroke.modifiers.control,
        !keystroke.modifiers.platform,
        !keystroke.modifiers.function,
    ensures
        ({
            let key = keystroke.key@;
            let sent = legacy_key(keystroke);
            &&& keystroke.key_char is None ==> sent == Some(seq![0x1bu8] + encode_utf8(key))
            &&& keystroke.key_char matches Some(text) ==> {
                &&& text@.len() == 0 ==> sent == Some(seq![0x1bu8] + encode_utf8(key))
                &&& text@.len() > 0 && vstd::utf8::is_ascii_chars(text@) && !has_control_char(text@)
                    ==> sent == Some(seq![0x1bu8] + encode_utf8(text@))
                &&& text@.len() > 0 && vstd::utf8::is_ascii_chars(key)
                    && !vstd::utf8::is_ascii_chars(text@) ==> sent == Some(
                    seq![0x1bu8] + encode_utf8(key),
                )
                &&& text@.len() > 0 && !vstd::utf8::is_ascii_chars(key) && !has_control_char(text@)
                    ==> sent == Some(seq![0x1bu8] + encode_utf8(text@))
            }
        }),
{
    lemma_key_names(keystroke.key@);
}

/// Law: the codes by which the protocol names keys: that of a key with one
/// character is the code point of it, in lower case for the letters of ASCII.
pub proof fn law_codes_of_keys(key: Seq<char>, key_char: Option<Seq<char>>)
    ensures
        key == "escape"@ ==> key_code(key, key_char) == Some(27u32),
        key == "enter"@ ==> key_code(key, key_char) == Some(13u32),
        key == "tab"@ ==> key_code(key, key_char) == Some(9u32),
        key == "backspace"@ ==> key_code(key, key_char) == Some(127u32),
        key == "space"@ ==> key_code(key, key_char) == Some(32u32),
        key == "shift"@ ==> key_code(key, key_char) == Some(57441u32),
        key == "control"@ ==> key_code(key, key_char) == Some(57442u32),
        key == "alt"@ ==> key_code(key, key_char) == Some(57443u32),
        key == "super"@ ==> key_code(key, key_char) == Some(57444u32),
        key.len() == 1 && 'A' <= key[0] <= 'Z' ==> key_code(key, key_char) == Some(
            (key[0] as u32 + 32) as u32,
        ),
        key.len() == 1 && !('A' <= key[0] <= 'Z') ==> key_code(key, key_char) == Some(
            key[0] as u32,
        ),
{
    reveal_strlit("escape");
    reveal_strlit("enter");
    reveal_strlit("tab");
    reveal_strlit("backspace");
    reveal_strlit("space");
    reveal_strlit("shift");
    reveal_strlit("control");
    reveal_strlit("ctrl");
    reveal_strlit("alt");
    reveal_strlit("option");
    reveal_strlit("super");
    reveal_strlit("cmd");
    reveal_strlit("command");
    assert("escape"@.len() == 6 && "enter"@.len() == 5 && "tab"@.len() == 3);
    assert("backspace"@.len() == 9 && "space"@.len() == 5 && "shift"@.len() == 5);
    assert("control"@.len() == 7 && "ctrl"@.len() == 4 && "alt"@.len() == 3);
    assert("option"@.len() == 6 && "super"@.len() == 5 && "cmd"@.len() == 3);
    assert("command"@.len() == 7);
    assert("escape"@[0] == 'e' && "enter"@[0] == 'e' && "tab"@[0] == 't');
    assert("space"@[1] == 'p' && "shift"@[1] == 'h' && "super"@[1] == 'u' && "enter"@[1] == 'n');
    assert("alt"@[0] == 'a' && "cmd"@[0] == 'c' && "option"@[0] == 'o');
    assert("control"@[2] == 'n' && "command"@[2] == 'm');
}

/// Law: where all keys are reported as codes, and nothing more is asked for, a key
/// sends its code and the digit of its modifiers between an escape, a bracket and
/// the letter u.
pub proof fn law_keys_as_codes(keystroke: Keystroke, code: u32)
    requires
        key_code(keystroke.key@, text_view(keystroke.key_char)) == Some(code),
        !keystroke.modifiers.platform,
        !keystroke.modifiers.function,
        !keystroke.ime_in_progress,
    ensures
        encoded_key(
            keystroke,
            TermMode { report_all_keys_as_esc: true, ..TermMode::off() },
            KittyKeyEventType::Press,
        ) == Some(
            seq![0x1bu8, 0x5b] + decimal(code as nat) + seq![
                0x3bu8,
                (0x30 + modifier_number(keystroke.modifiers)) as u8,
                0x75,
            ],
        ),
{
    let mode = TermMode { report_all_keys_as_esc: true, ..TermMode::off() };
    let m = modifier_number(keystroke.modifiers) as nat;
    lemma_one_digit(m);
    let head = seq![0x1bu8, 0x5b] + decimal(code as nat);
    assert(key_field(code, text_view(keystroke.key_char), keystroke.modifiers.shift, false)
        == decimal(code as nat));
    assert(text_field(text_view(keystroke.key_char), mode) is None);
    assert(head + seq![0x3bu8] + decimal(m) + seq![0x75u8] =~= head + seq![
        0x3bu8,
        (0x30 + m) as u8,
        0x75,
    ]);
}

/// Law: where keys are only to be told apart, the escape key and the chords of alt
/// and control are sent as codes, and all other keys as ever.
pub proof fn law_only_ambiguous_keys_become_codes(keystroke: Keystroke, code: u32)
    requires
        key_code(keystroke.key@, text_view(keystroke.key_char)) == Some(code),
        !keystroke.modifiers.platform,
        !keystroke.modifiers.function,
        !keystroke.ime_in_progress,
    ensures
        ({
            let sent = encoded_key(
                keystroke,
                TermMode { disambiguate_esc_codes: true, ..TermMode::off() },
                KittyKeyEventType::Press,
            );
            let m = keystroke.modifiers;
            if keystroke.key@ == "escape"@ || m.alt || m.control {
                sent == Some(
                    seq![0x1bu8, 0x5b] + decimal(code as nat) + seq![
                        0x3bu8,
                        (0x30 + modifier_number(m)) as u8,
                        0x75,
                    ],
                )
            } else {
                sent == legacy_key(keystroke)
            }
        }),
{
    lemma_key_names(keystroke.key@);
    let mode = TermMode { disambiguate_esc_codes: true, ..TermMode::off() };
    let m = modifier_number(keystroke.modifiers) as nat;
    lemma_one_digit(m);
    let head = seq![0x1bu8, 0x5b] + decimal(code as nat);
    assert(key_field(code, text_view(keystroke.key_char), keystroke.modifiers.shift, false)
        == decimal(code as nat));
    assert(text_field(text_view(keystroke.key_char), mode) is None);
    assert(head + seq![0x3bu8] + decimal(m) + seq![0x75u8] =~= head + seq![
        0x3bu8,
        (0x30 + m) as u8,
        0x75,
    ]);
}

/// Law: where events are reported, the arrows and the other keys without text send
/// the digit of the event behind that of the modifiers, 1 for a press, 2 for a
/// repeat and 3 for a release.
pub proof fn law_events_have_a_digit(keystroke: Keystroke, event_type: KittyKeyEventType)
    requires
        !keystroke.modifiers.platform,
        !keystroke.modifiers.function,
        !keystroke.ime_in_progress,
    ensures
        ({
            let sent = encoded_key(
                keystroke,
                TermMode { report_event_types: true, ..TermMode::off() },
                event_type,
            );
            let m = (0x30 + modifier_number(keystroke.modifiers)) as u8;
            let e: u8 = match event_type {
                KittyKeyEventType::Press => 0x31,
                KittyKeyEventType::Repeat => 0x32,
                KittyKeyEventType::Release => 0x33,
            };
            let key = keystroke.key@;
            &&& key == "up"@ ==> sent == Some(seq![0x1bu8, 0x5b, 0x31, 0x3b, m, 0x3a, e, 0x41])
            &&& key == "down"@ ==> sent == Some(seq![0x1bu8, 0x5b, 0x31, 0x3b, m, 0x3a, e, 0x42])
            &&& key == "right"@ ==> sent == Some(seq![0x1bu8, 0x5b, 0x31, 0x3b, m, 0x3a, e, 0x43])
            &&& key == "left"@ ==> sent == Some(seq![0x1bu8, 0x5b, 0x31, 0x3b, m, 0x3a, e, 0x44])
            &&& key == "home"@ ==> sent == Some(seq![0x1bu8, 0x5b, 0x31, 0x3b, m, 0x3a, e, 0x48])
            &&& key == "end"@ ==> sent == Some(seq![0x1bu8, 0x5b, 0x31, 0x3b, m, 0x3a, e, 0x46])
            &&& key == "delete"@ ==> sent == Some(
                seq![0x1bu8, 0x5b, 0x33, 0x3b, m, 0x3a, e, 0x7e],
            )
            &&& key == "pageup"@ ==> sent == Some(
                seq![0x1bu8, 0x5b, 0x35, 0x3b, m, 0x3a, e, 0x7e],
            )
            &&& key == "pagedown"@ ==> sent == Some(
                seq![0x1bu8, 0x5b, 0x36, 0x3b, m, 0x3a, e, 0x7e],
            )
        }),
{
    lemma_key_names(keystroke.key@);
    let number = modifier_number(keystroke.modifiers) as nat;
    let m = (0x30 + number) as u8;
    lemma_one_digit(number);
    lemma_one_digit(event_number(event_type));
    let e = (0x30 + event_number(event_type)) as u8;
    let field = modifier_field(number, true, event_type);
    assert(field =~= seq![m, 0x3au8, e]);
    let head = seq![0x1bu8, 0x5bu8];
    assert forall|n: nat, last: u8| n < 10 implies #[trigger] (head + decimal(n) + seq![0x3bu8]
        + field + seq![last]) == seq![0x1bu8, 0x5b, (0x30 + n) as u8, 0x3b, m, 0x3a, e, last] by {
        lemma_one_digit(n);
        assert(head + decimal(n) + seq![0x3bu8] + field + seq![last] =~= seq![
            0x1bu8,
            0x5b,
            (0x30 + n) as u8,
            0x3b,
            m,
            0x3a,
            e,
            last,
        ]);
    }
}

/// Law: a press that is reported as a code tells, where that is asked for, what
/// the key types with shift, behind a colon, and the code points of the text that
/// it typed, joined by colons.
pub proof fn law_codes_with_their_text(keystroke: Keystroke, code: u32, typed: char)
    requires
        key_code(keystroke.key@, text_view(keystroke.key_char)) == Some(code),
        keystroke.key_char is Some,
        (keystroke.key_char->0)@ == seq![typed],
        !control_char(typed),
        typed as u32 != code,
        keystroke.modifiers.shift,
        !keystroke.modifiers.platform,
        !keystroke.modifiers.function,
        !keystroke.ime_in_progress,
    ensures
        encoded_key(
            keystroke,
            TermMode {
                report_all_keys_as_esc: true,
                report_alternate_keys: true,
                report_associated_text: true,
                ..TermMode::off()
            },
            KittyKeyEventType::Press,
        ) == Some(
            seq![0x1bu8, 0x5b] + decimal(code as nat) + seq![0x3au8] + decimal(typed as u32 as nat)
                + seq![0x3bu8, (0x30 + modifier_number(keystroke.modifiers)) as u8, 0x3b] + decimal(
                typed as u32 as nat,
            ) + seq![0x75u8],
        ),
{
    let mode = TermMode {
        report_all_keys_as_esc: true,
        report_alternate_keys: true,
        report_associated_text: true,
        ..TermMode::off()
    };
    let m = modifier_number(keystroke.modifiers) as nat;
    lemma_one_digit(m);
    let text = (keystroke.key_char->0)@;
    assert(text[0] == typed);
    assert(!has_control_char(text));
    assert(code_points(text) == decimal(typed as u32 as nat));
    let field = decimal(code as nat) + seq![0x3au8] + decimal(typed as u32 as nat);
    assert(key_field(code, Some(text), true, true) == field);
    assert(seq![0x1bu8, 0x5b] + field + seq![0x3bu8] + decimal(m) + seq![0x3bu8] + decimal(
        typed as u32 as nat,
    ) + seq![0x75u8] =~= seq![0x1bu8, 0x5b] + decimal(code as nat) + seq![0x3au8] + decimal(
        typed as u32 as nat,
    ) + seq![0x3bu8, (0x30 + m) as u8, 0x3b] + decimal(typed as u32 as nat) + seq![0x75u8]);
}

proof fn lemma_one_letter(key: Seq<char>, upper: char, lower: char, text: Seq<char>)
    requires
        'A' <= upper <= 'Z',
        lower as u32 == upper as u32 + 32,
        text == seq![lower],
    ensures
        ascii_lower_text(key) == ascii_lower_text(text) <==> key == seq![lower] || key == seq![
            upper,
        ],
{
    let wanted = ascii_lower_text(text);
    assert(wanted =~= seq![lower]);
    if ascii_lower_text(key) == wanted {
        assert(key.len() == ascii_lower_text(key).len());
        assert(ascii_lower_text(key)[0] == ascii_lower(key[0]));
        if key[0] == lower {
            assert(key =~= seq![lower]);
        } else {
            assert(key =~= seq![upper]);
        }
    }
    if key == seq![lower] || key == seq![upper] {
        assert(ascii_lower_text(key) =~= wanted);
    }
}

/// Law: V pastes with command, and with control and shift; A selects everything
/// with command alone, where there is such a key; other chords do neither.
pub proof fn law_shortcuts_of_editing(keystroke: Keystroke, has_command_key: bool)
    ensures
        ({
            let key = keystroke.key@;
            let m = keystroke.modifiers;
            &&& paste_shortcut(keystroke) <==> (key == seq!['v'] || key == seq!['V']) && (
            m.platform && !m.control || m.control && m.shift)
            &&& select_all_shortcut(keystroke, has_command_key) <==> (key == seq!['a'] || key
                == seq!['A']) && has_command_key && m.platform && !m.control && !m.alt && !m.shift
                && !m.function
        }),
{
    reveal_strlit("v");
    reveal_strlit("a");
    assert("v"@ =~= seq!['v']);
    assert("a"@ =~= seq!['a']);
    lemma_one_letter(keystroke.key@, 'V', 'v', "v"@);
    lemma_one_letter(keystroke.key@, 'A', 'a', "a"@);
}

/// Law: command with the plus or the equals sign makes the text larger, with the
/// hyphen or the underscore smaller; without command, or with control or alt,
/// neither.
pub proof fn law_shortcuts_of_size(keystroke: Keystroke)
    ensures
        ({
            let key = keystroke.key@;
            let m = keystroke.modifiers;
            let command = m.platform && !m.control && !m.alt && !m.function;
            &&& !command ==> !zoom_in_shortcut(keystroke) && !zoom_out_shortcut(keystroke)
            &&& command && (key == "="@ || key == "+"@ || key == "equal"@ || key == "plus"@)
                ==> zoom_in_shortcut(keystroke)
            &&& command && (key == "-"@ || key == "_"@ || key == "minus"@) ==> zoom_out_shortcut(
                keystroke,
            )
            &&& command && keystroke.key_char is Some && ((keystroke.key_char->0)@ == "="@ || (
            keystroke.key_char->0)@ == "+"@) ==> zoom_in_shortcut(keystroke)
            &&& command && keystroke.key_char is Some && ((keystroke.key_char->0)@ == "-"@ || (
            keystroke.key_char->0)@ == "_"@) ==> zoom_out_shortcut(keystroke)
            &&& key.len() == 1 && key[0] != '=' && key[0] != '+' && keystroke.key_char is None
                ==> !zoom_in_shortcut(keystroke)
            &&& key.len() == 1 && key[0] != '-' && key[0] != '_' && keystroke.key_char is None
                ==> !zoom_out_shortcut(keystroke)
        }),
{
    let key = keystroke.key@;
    reveal_strlit("=");
    reveal_strlit("+");
    reveal_strlit("equal");
    reveal_strlit("plus");
    reveal_strlit("-");
    reveal_strlit("_");
    reveal_strlit("minus");
    let larger: Seq<&str> = seq!["=", "equal", "plus", "+"];
    let smaller: Seq<&str> = seq!["-", "minus", "_"];
    assert(larger[0] == "=" && larger[1] == "equal" && larger[2] == "plus" && larger[3] == "+");
    assert(smaller[0] == "-" && smaller[1] == "minus" && smaller[2] == "_");
    if key.len() == 1 {
        assert(ascii_lower_text(key).len() == 1);
        assert(ascii_lower_text(key)[0] == ascii_lower(key[0]));
        if is_one_of(key, larger) {
            let i = choose|i: int|
                0 <= i < larger.len() && ascii_lower_text((#[trigger] larger[i])@)
                    == ascii_lower_text(key);
            let name = larger[i]@;
            assert(ascii_lower_text(name).len() == name.len());
            assert(ascii_lower_text(name)[0] == ascii_lower(name[0]));
        }
        if is_one_of(key, smaller) {
            let i = choose|i: int|
                0 <= i < smaller.len() && ascii_lower_text((#[trigger] smaller[i])@)
                    == ascii_lower_text(key);
            let name = smaller[i]@;
            assert(ascii_lower_text(name).len() == name.len());
            assert(ascii_lower_text(name)[0] == ascii_lower(name[0]));
        }
    }
    if key == "="@ {
        assert(ascii_lower_text(larger[0]@) == ascii_lower_text(key));
    }
    if key == "equal"@ {
        assert(ascii_lower_text(larger[1]@) == ascii_lower_text(key));
    }
    if key == "plus"@ {
        assert(ascii_lower_text(larger[2]@) == ascii_lower_text(key));
    }
    if key == "+"@ {
        assert(ascii_lower_text(larger[3]@) == ascii_lower_text(key));
    }
    if key == "-"@ {
        assert(ascii_lower_text(smaller[0]@) == ascii_lower_text(key));
    }
    if key == "minus"@ {
        assert(ascii_lower_text(smaller[1]@) == ascii_lower_text(key));
    }
    if key == "_"@ {
        assert(ascii_lower_text(smaller[2]@) == ascii_lower_text(key));
    }
}

/// Law: where there is a text input, a key that types text is left to it, unless a
/// chord or a key of the terminal claims it; these never are.
pub proof fn law_typing_goes_to_the_text_input(
    keystroke: Keystroke,
    option_as_meta: bool,
    has_text_input: bool,
)
    ensures
        ({
            let key = keystroke.key@;
            let m = keystroke.modifiers;
            let defers = defers_to_text_input(keystroke, option_as_meta, has_text_input);
            &&& !has_text_input ==> !defers
            &&& m.control || m.platform || m.function ==> !defers
            &&& key == "enter"@ || key == "tab"@ || key == "backspace"@ || key == "escape"@ || key
                == "left"@ || key == "right"@ || key == "up"@ || key == "down"@ || key == "home"@
                || key == "end"@ || key == "pageup"@ || key == "pagedown"@ || key == "delete"@
                || key == "insert"@ ==> !defers
            &&& has_text_input && key.len() == 1 && keystroke.key_char is Some && (
            keystroke.key_char->0)@.len() > 0 && !has_control_char((keystroke.key_char->0)@)
                && !m.control && !m.platform && !m.function && (!m.alt || !option_as_meta)
                ==> defers
            &&& keystroke.key_char is None && !m.alt ==> !defers
        }),
{
    lemma_key_names(keystroke.key@);
}

/// Law: the code points of a longer text are those of its parts, with a colon
/// between them; that of a character is its number.
pub proof fn law_code_points_are_joined_by_colons(a: Seq<char>, b: Seq<char>, c: char)
    requires
        a.len() > 0,
        b.len() > 0,
    ensures
        code_points(seq![c]) == decimal(c as u32 as nat),
        code_points(a + b) == code_points(a) + seq![0x3au8] + code_points(b),
    decreases b.len(),
{
    let all = a + b;
    assert(all.drop_last() =~= a + b.drop_last());
    if b.len() == 1 {
        assert(a + b.drop_last() =~= a);
    } else {
        law_code_points_are_joined_by_colons(a, b.drop_last(), c);
        assert(code_points(all) =~= code_points(a) + seq![0x3au8] + code_points(b));
    }
}

/// Law: a key with one character of its own, and the space bar, stand for text
/// where they have a code; a modifier never does.
pub proof fn law_modifiers_are_no_text(keystroke: Keystroke)
    ensures
        ({
            let key = keystroke.key@;
            let code = key_code(key, text_view(keystroke.key_char));
            &&& key == "shift"@ || key == "control"@ || key == "ctrl"@ || key == "alt"@ || key
                == "option"@ || key == "super"@ || key == "cmd"@ || key == "command"@
                ==> !is_text_key(keystroke)
            &&& key.len() == 1 ==> (is_text_key(keystroke) <==> code is Some)
            &&& key == "space"@ ==> is_text_key(keystroke)
            &&& key == "enter"@ || key == "tab"@ || key == "backspace"@ || key == "escape"@
                ==> !is_text_key(keystroke)
        }),
{
    let key = keystroke.key@;
    lemma_key_names(key);
    reveal_strlit("shift");
    reveal_strlit("control");
    reveal_strlit("ctrl");
    reveal_strlit("alt");
    reveal_strlit("option");
    reveal_strlit("super");
    reveal_strlit("cmd");
    reveal_strlit("command");
    reveal_strlit("space");
    assert("shift"@.len() == 5 && "shift"@[1] == 'h');
    assert("space"@.len() == 5 && "space"@[1] == 'p');
    assert("super"@.len() == 5 && "super"@[1] == 'u');
    assert("control"@.len() == 7);
    assert("ctrl"@.len() == 4);
    assert("alt"@.len() == 3);
    assert("option"@.len() == 6);
    assert("cmd"@.len() == 3);
    assert("command"@.len() == 7);
}

} // verus!
