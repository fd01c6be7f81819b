//! The options of the program.
use clap::builder::{NonEmptyStringValueParser, PossibleValuesParser};
use clap::{Arg, ArgAction, Command};
use vstd::prelude::*;

use crate::chars::{same_text, text_view, text_views};

verus! {

#[derive(Clone, Copy, Debug, PartialEq, Eq, Structural)]
pub enum AmbiguousWidth {
    Single,
    Double,
}

#[derive(Clone, Copy, Debug, PartialEq, Eq, Structural)]
pub enum Theme {
    Default,
    EyeCare,
}

#[derive(Debug)]
pub struct CliOptions {
    pub self_check: bool,
    pub show_status_bar: bool,
    pub font_family: String,
    pub font_fallbacks: Vec<String>,
    pub double_width_chars: Vec<String>,
    pub ambiguous_width: AmbiguousWidth,
    pub theme: Theme,
    pub input_log_file: Option<String>,
    pub input_log_raw: bool,
    pub no_cursor_slide: bool,
    pub force_vertical_cursor: bool,
    pub cursor_trail: bool,
    pub no_option_as_meta: bool,
    pub debug_http: bool,
    pub debug_http_token: Option<String>,
    pub debug_http_allow_remote: bool,
}

/// Why there are no options: what to print, and the status to exit with. A
/// request for help is one such reason, with a status of success.
#[derive(Debug)]
pub struct CliError {
    pub message: String,
    pub exit_code: i32,
}

/// An option of the program: its long name, and what is said of it.
pub ghost enum OptionView {
    /// One without a value.
    Flag { name: Seq<char>, help: Option<Seq<char>> },
    /// One whose value is any text.
    Text { name: Seq<char>, value_name: Seq<char>, default: Option<Seq<char>> },
    /// One whose value is a path, which is not empty.
    File { name: Seq<char>, value_name: Seq<char> },
    /// One whose value is one of a few.
    Choice {
        name: Seq<char>,
        value_name: Seq<char>,
        default: Option<Seq<char>>,
        values: Seq<Seq<char>>,
    },
    /// One that may be repeated, with values that commas separate.
    List { name: Seq<char>, value_name: Seq<char> },
}

impl OptionView {
    pub open spec fn long_name(self) -> Seq<char> {
        match self {
            OptionView::Flag { name, .. } => name,
            OptionView::Text { name, .. } => name,
            OptionView::File { name, .. } => name,
            OptionView::Choice { name, .. } => name,
            OptionView::List { name, .. } => name,
        }
    }
}

pub open spec fn str_views(texts: Seq<&'static str>) -> Seq<Seq<char>> {
    texts.map_values(|text: &'static str| text@)
}

pub open spec fn str_view(text: Option<&'static str>) -> Option<Seq<char>> {
    match text {
        Some(t) => Some(t@),
        None => None,
    }
}

/// Whether a name can be added to options: it is neither empty nor that of
/// another option or of the help that clap adds, and does not start with a
/// hyphen.
pub open spec fn is_free_name(options: Seq<OptionView>, name: Seq<char>) -> bool {
    &&& name.len() > 0
    &&& name[0] != '-'
    &&& name != "help"@
    &&& forall|i: int| 0 <= i < options.len() ==> (#[trigger] options[i]).long_name() != name
}

/// A collection of options.
#[verifier::external_type_specification]
#[verifier::external_body]
pub struct ExCommand(clap::Command);

/// The options in it, in their order.
pub uninterp spec fn command_options(command: clap::Command) -> Seq<OptionView>;

/// `clap::Command::default`: a command without options.
#[verifier::external_body]
fn empty_command() -> (r: clap::Command)
    ensures
        command_options(r) == Seq::<OptionView>::empty(),
{
    Command::default()
}

/// `clap::Command::arg` with a flag: the action `SetTrue`. Clap panics on a name
/// that is not free.
#[verifier::external_body]
fn with_flag(command: clap::Command, name: &'static str, help: Option<&'static str>) -> (r:
    clap::Command)
    requires
        is_free_name(command_options(command), name@),
    ensures
        command_options(r) == command_options(command).push(
            OptionView::Flag { name: name@, help: str_view(help) },
        ),
{
    command.arg(Arg::new(name).long(name).help(help).action(ArgAction::SetTrue))
}

/// `clap::Command::arg` with an option that takes any text.
#[verifier::external_body]
fn with_text(
    command: clap::Command,
    name: &'static str,
    value_name: &'static str,
    default: Option<&'static str>,
) -> (r: clap::Command)
    requires
        is_free_name(command_options(command), name@),
    ensures
        command_options(r) == command_options(command).push(
            OptionView::Text { name: name@, value_name: value_name@, default: str_view(default) },
        ),
{
    command.arg(Arg::new(name).long(name).value_name(value_name).default_value(default))
}

/// `clap::Command::arg` with an option that takes a text that is not empty.
#[verifier::external_body]
fn with_file(command: clap::Command, name: &'static str, value_name: &'static str) -> (r:
    clap::Command)
    requires
        is_free_name(command_options(command), name@),
    ensures
        command_options(r) == command_options(command).push(
            OptionView::File { name: name@, value_name: value_name@ },
        ),
{
    let parser = NonEmptyStringValueParser::new();
    command.arg(Arg::new(name).long(name).value_name(value_name).value_parser(parser))
}

/// `clap::Command::arg` with an option that takes one of some values. Clap
/// panics on a default that is none of them.
#[verifier::external_body]
fn with_choice(
    command: clap::Command,
    name: &'static str,
    value_name: &'static str,
    default: &'static str,
    values: &[&'static str],
) -> (r: clap::Command)
    requires
        is_free_name(command_options(command), name@),
        str_views(values@).contains(default@),
    ensures
        command_options(r) == command_options(command).push(
            OptionView::Choice {
                name: name@,
                value_name: value_name@,
                default: Some(default@),
                values: str_views(values@),
            },
        ),
{
    let parser = PossibleValuesParser::new(values.to_vec());
    let option = Arg::new(name).long(name).value_name(value_name);
    command.arg(option.default_value(default).value_parser(parser))
}

/// `clap::Command::arg` with a list: the action `Append`, and a comma between
/// values.
#[verifier::external_body]
fn with_list(command: clap::Command, name: &'static str, value_name: &'static str) -> (r:
    clap::Command)
    requires
        is_free_name(command_options(command), name@),
    ensures
        command_options(r) == command_options(command).push(
            OptionView::List { name: name@, value_name: value_name@ },
        ),
{
    let option = Arg::new(name).long(name).value_name(value_name);
    command.arg(option.action(ArgAction::Append).value_delimiter(','))
}

/// What clap finds on a command line, given the name that the program was called
/// by and the options: what each of these stands for by its name, or the message
/// and the exit status of an error.
pub uninterp spec fn clap_outcome(
    program: Seq<char>,
    options: Seq<OptionView>,
    args: Seq<Seq<char>>,
) -> Result<
    (Map<Seq<char>, bool>, Map<Seq<char>, Option<Seq<char>>>, Map<Seq<char>, Seq<Seq<char>>>),
    (Seq<char>, i32),
>;

/// The collection of what clap has found.
#[verifier::external_type_specification]
#[verifier::external_body]
pub struct ExArgMatches(clap::ArgMatches);

/// The flags in it: whether each was given.
pub uninterp spec fn found_flags(found: clap::ArgMatches) -> Map<Seq<char>, bool>;

/// The options with a value in it.
pub uninterp spec fn found_values(found: clap::ArgMatches) -> Map<Seq<char>, Option<Seq<char>>>;

/// The lists in it.
pub uninterp spec fn found_lists(found: clap::ArgMatches) -> Map<Seq<char>, Seq<Seq<char>>>;

/// What was found, by name.
pub ghost struct Found {
    pub flags: Map<Seq<char>, bool>,
    pub values: Map<Seq<char>, Option<Seq<char>>>,
    pub lists: Map<Seq<char>, Seq<Seq<char>>>,
}

impl Found {
    /// Whether something was found for an option: a default stands for what was
    /// not given, and a choice is one of its values.
    pub open spec fn has(self, option: OptionView) -> bool {
        match option {
            OptionView::Flag { name, .. } => self.flags.dom().contains(name),
            OptionView::Text { name, default, .. } => self.values.dom().contains(name) && (default
                is Some ==> self.values[name] is Some),
            OptionView::File { name, .. } => self.values.dom().contains(name)
                && self.values[name] != Some(Seq::<char>::empty()),
            OptionView::Choice { name, values, .. } => self.values.dom().contains(name)
                && self.values[name] is Some && values.contains(self.values[name]->0),
            OptionView::List { name, .. } => self.lists.dom().contains(name),
        }
    }

    /// Whether an option was not given.
    pub open spec fn lacks(self, option: OptionView) -> bool {
        match option {
            OptionView::Flag { name, .. } => !self.flags[name],
            OptionView::Text { name, default, .. } => self.values[name] == default,
            OptionView::File { name, .. } => self.values[name] is None,
            OptionView::Choice { name, default, .. } => self.values[name] == default,
            OptionView::List { name, .. } => self.lists[name].len() == 0,
        }
    }
}

/// `clap::Command::try_get_matches_from`, on a command that is called by a name.
/// What it finds depends on this name, which its messages tell, on the options
/// and on the arguments alone. It finds something for each option, and without
/// arguments it finds that none was given.
#[verifier::external_body]
fn find_options(command: clap::Command, program: &str, args: &Vec<String>) -> (r: Result<
    clap::ArgMatches,
    (String, i32),
>)
    ensures
        match r {
            Ok(found) => {
                let by_name = Found {
                    flags: found_flags(found),
                    values: found_values(found),
                    lists: found_lists(found),
                };
                &&& clap_outcome(program@, command_options(command), text_views(args@)) == Ok::<
                    _,
                    (Seq<char>, i32),
                >((by_name.flags, by_name.values, by_name.lists))
                &&& forall|i: int|
                    0 <= i < command_options(command).len() ==> by_name.has(
                        #[trigger] command_options(command)[i],
                    ) && (args@.len() == 0 ==> by_name.lacks(command_options(command)[i]))
            },
            Err(error) => {
                &&& args@.len() > 0
                &&& clap_outcome(program@, command_options(command), text_views(args@)) == Err::<
                    (
                        Map<Seq<char>, bool>,
                        Map<Seq<char>, Option<Seq<char>>>,
                        Map<Seq<char>, Seq<Seq<char>>>,
                    ),
                    _,
                >((error.0@, error.1))
            },
        },
{
    let command = command.no_binary_name(true).bin_name(program);
    command.try_get_matches_from(args).map_err(|e| (e.to_string(), e.exit_code()))
}

/// `clap::ArgMatches::get_flag`: whether a flag was given. It panics on a name
/// that is no flag.
#[verifier::external_body]
fn found_flag(found: &clap::ArgMatches, name: &str) -> (r: bool)
    requires
        found_flags(*found).dom().contains(name@),
    ensures
        r == found_flags(*found)[name@],
{
    found.get_flag(name)
}

/// `clap::ArgMatches::get_one`: the value of an option, if it was given. It
/// panics on a name that is no option.
#[verifier::external_body]
fn found_value(found: &clap::ArgMatches, name: &str) -> (r: Option<String>)
    requires
        found_values(*found).dom().contains(name@),
    ensures
        text_view(r) == found_values(*found)[name@],
{
    found.get_one::<String>(name).cloned()
}

/// `clap::ArgMatches::get_many`: the items of a list, in their order; none
/// where the list was not given. It panics on a name that is no option.
#[verifier::external_body]
fn found_list(found: &clap::ArgMatches, name: &str) -> (r: Vec<String>)
    requires
        found_lists(*found).dom().contains(name@),
    ensures
        text_views(r@) == found_lists(*found)[name@],
{
    found.get_many::<String>(name).into_iter().flatten().cloned().collect()
}

/// The width that a value asks for; none where it is no width.
pub open spec fn width_of(value: Seq<char>) -> Option<AmbiguousWidth> {
    if value == "single"@ {
        Some(AmbiguousWidth::Single)
    } else if value == "double"@ {
        Some(AmbiguousWidth::Double)
    } else {
        None
    }
}

pub fn parse_ambiguous_width(value: &str) -> (r: Option<AmbiguousWidth>)
    ensures
        r == width_of(value@),
{
    if same_text(value, "single") {
        Some(AmbiguousWidth::Single)
    } else if same_text(value, "double") {
        Some(AmbiguousWidth::Double)
    } else {
        None
    }
}

/// The theme that a value asks for; none where it is no theme.
pub open spec fn theme_of(value: Seq<char>) -> Option<Theme> {
    if value == "default"@ {
        Some(Theme::Default)
    } else if value == "eye-care"@ {
        Some(Theme::EyeCare)
    } else {
        None
    }
}

pub fn parse_theme(value: &str) -> (r: Option<Theme>)
    ensures
        r == theme_of(value@),
{
    if same_text(value, "default") {
        Some(Theme::Default)
    } else if same_text(value, "eye-care") {
        Some(Theme::EyeCare)
    } else {
        None
    }
}

/// What was found for each option.
pub struct FoundOptions {
    pub self_check: bool,
    pub show_status_bar: bool,
    pub font_family: String,
    pub font_fallbacks: Vec<String>,
    pub double_width_chars: Vec<String>,
    pub ambiguous_width: String,
    pub theme: String,
    pub input_log_file: Option<String>,
    pub input_log_raw: bool,
    pub no_cursor_slide: bool,
    pub force_vertical_cursor: bool,
    pub cursor_trail: bool,
    pub no_option_as_meta: bool,
    pub debug_http: bool,
    pub debug_http_token: Option<String>,
    pub debug_http_allow_remote: bool,
}

impl FoundOptions {
    /// Whether it holds what was found by name.
    pub open spec fn holds(self, found: Found) -> bool {
        &&& self.self_check == found.flags["self-check"@]
        &&& self.show_status_bar == found.flags["show-status-bar"@]
        &&& Some(self.font_family@) == found.values["font-family"@]
        &&& text_views(self.font_fallbacks@) == found.lists["font-fallback"@]
        &&& text_views(self.double_width_chars@) == found.lists["double-width-char"@]
        &&& Some(self.ambiguous_width@) == found.values["ambiguous-width"@]
        &&& Some(self.theme@) == found.values["theme"@]
        &&& text_view(self.input_log_file) == found.values["input-log-file"@]
        &&& self.input_log_raw == found.flags["input-log-raw"@]
        &&& self.no_cursor_slide == found.flags["no-cursor-slide"@]
        &&& self.force_vertical_cursor == found.flags["force-vertical-cursor"@]
        &&& self.cursor_trail == found.flags["cursor-trail"@]
        &&& self.no_option_as_meta == found.flags["no-option-as-meta"@]
        &&& self.debug_http == found.flags["debug-http"@]
        &&& text_view(self.debug_http_token) == found.values["debug-http-token"@]
        &&& self.debug_http_allow_remote == found.flags["debug-http-allow-remote"@]
    }
}

/// Whether options are those that were found.
pub open spec fn are_options(options: CliOptions, found: FoundOptions) -> bool {
    &&& options.self_check == found.self_check
    &&& options.show_status_bar == found.show_status_bar
    &&& options.font_family@ == found.font_family@
    &&& options.font_fallbacks@ == found.font_fallbacks@
    &&& options.double_width_chars@ == found.double_width_chars@
    &&& width_of(found.ambiguous_width@) == Some(options.ambiguous_width)
    &&& theme_of(found.theme@) == Some(options.theme)
    &&& text_view(options.input_log_file) == text_view(found.input_log_file)
    &&& options.input_log_raw == found.input_log_raw
    &&& options.no_cursor_slide == found.no_cursor_slide
    &&& options.force_vertical_cursor == found.force_vertical_cursor
    &&& options.cursor_trail == found.cursor_trail
    &&& options.no_option_as_meta == found.no_option_as_meta
    &&& options.debug_http == found.debug_http
    &&& text_view(options.debug_http_token) == text_view(found.debug_http_token)
    &&& options.debug_http_allow_remote == found.debug_http_allow_remote
}

/// The options from what was found on the command line; none where a width or a
/// theme is not one that there is.
pub fn options_from(found: FoundOptions) -> (r: Option<CliOptions>)
    ensures
        match r {
            Some(options) => are_options(options, found),
            None => width_of(found.ambiguous_width@) is None || theme_of(found.theme@) is None,
        },
{
    let ambiguous_width = match parse_ambiguous_width(found.ambiguous_width.as_str()) {
        Some(width) => width,
        None => return None,
    };
    let theme = match parse_theme(found.theme.as_str()) {
        Some(theme) => theme,
        None => return None,
    };
    Some(
        CliOptions {
            self_check: found.self_check,
            show_status_bar: found.show_status_bar,
            font_family: found.font_family,
            font_fallbacks: found.font_fallbacks,
            double_width_chars: found.double_width_chars,
            ambiguous_width,
            theme,
            input_log_file: found.input_log_file,
            input_log_raw: found.input_log_raw,
            no_cursor_slide: found.no_cursor_slide,
            force_vertical_cursor: found.force_vertical_cursor,
            cursor_trail: found.cursor_trail,
            no_option_as_meta: found.no_option_as_meta,
            debug_http: found.debug_http,
            debug_http_token: found.debug_http_token,
            debug_http_allow_remote: found.debug_http_allow_remote,
        },
    )
}

pub open spec fn flag(name: Seq<char>) -> OptionView {
    OptionView::Flag { name, help: None }
}

/// The options of the program, in the order in which its help lists them.
pub open spec fn program_options() -> Seq<OptionView> {
    seq![
        flag("self-check"@),
        flag("show-status-bar"@),
        OptionView::Text {
            name: "font-family"@,
            value_name: "FONT_FAMILY"@,
            default: Some("Menlo"@),
        },
        OptionView::List { name: "font-fallback"@, value_name: "FONT_FALLBACKS"@ },
        OptionView::List { name: "double-width-char"@, value_name: "DOUBLE_WIDTH_CHARS"@ },
        OptionView::Choice {
            name: "ambiguous-width"@,
            value_name: "AMBIGUOUS_WIDTH"@,
            default: Some("single"@),
            values: seq!["single"@, "double"@],
        },
        OptionView::Choice {
            name: "theme"@,
            value_name: "THEME"@,
            default: Some("default"@),
            values: seq!["default"@, "eye-care"@],
        },
        OptionView::File { name: "input-log-file"@, value_name: "INPUT_LOG_FILE"@ },
        flag("input-log-raw"@),
        OptionView::Flag {
            name: "no-cursor-slide"@,
            help: Some("Disable smooth cursor slide animation"@),
        },
        OptionView::Flag {
            name: "force-vertical-cursor"@,
            help: Some("Force a vertical beam cursor regardless of app cursor mode"@),
        },
        OptionView::Flag {
            name: "cursor-trail"@,
            help: Some("Enable subtle trailing effect for vertical beam cursor"@),
        },
        OptionView::Flag {
            name: "no-option-as-meta"@,
            help: Some("Treat macOS Option key as plain text input instead of Meta/Alt"@),
        },
        flag("debug-http"@),
        OptionView::Text {
            name: "debug-http-token"@,
            value_name: "DEBUG_HTTP_TOKEN"@,
            default: None,
        },
        flag("debug-http-allow-remote"@),
    ]
}

pub open spec fn option_names(options: Seq<OptionView>) -> Seq<Seq<char>> {
    options.map_values(|option: OptionView| option.long_name())
}

proof fn lemma_names_differ()
    ensures
        option_names(program_options()).no_duplicates(),
        forall|k: int|
            0 <= k < 16 ==> is_free_name(
                Seq::empty(),
                #[trigger] option_names(program_options())[k],
            ),
{
    reveal_strlit("help");
    reveal_strlit("self-check");
    reveal_strlit("show-status-bar");
    reveal_strlit("font-family");
    reveal_strlit("font-fallback");
    reveal_strlit("double-width-char");
    reveal_strlit("ambiguous-width");
    reveal_strlit("theme");
    reveal_strlit("input-log-file");
    reveal_strlit("input-log-raw");
    reveal_strlit("no-cursor-slide");
    reveal_strlit("force-vertical-cursor");
    reveal_strlit("cursor-trail");
    reveal_strlit("no-option-as-meta");
    reveal_strlit("debug-http");
    reveal_strlit("debug-http-token");
    reveal_strlit("debug-http-allow-remote");
    let names = option_names(program_options());
    assert(names.len() == 16);
    assert(names[0].len() == 10 && names[0][0] == 's');
    assert(names[1].len() == 15 && names[1][0] == 's');
    assert(names[2].len() == 11 && names[2][0] == 'f');
    assert(names[3].len() == 13 && names[3][0] == 'f');
    assert(names[4].len() == 17 && names[4][0] == 'd');
    assert(names[5].len() == 15 && names[5][0] == 'a');
    assert(names[6].len() == 5 && names[6][0] == 't');
    assert(names[7].len() == 14 && names[7][0] == 'i');
    assert(names[8].len() == 13 && names[8][0] == 'i');
    assert(names[9].len() == 15 && names[9][0] == 'n');
    assert(names[10].len() == 21 && names[10][0] == 'f');
    assert(names[11].len() == 12 && names[11][0] == 'c');
    assert(names[12].len() == 17 && names[12][0] == 'n');
    assert(names[13].len() == 10 && names[13][0] == 'd');
    assert(names[14].len() == 16 && names[14][0] == 'd');
    assert(names[15].len() == 23 && names[15][0] == 'd');
}

/// The name of each option is free among those before it.
proof fn lemma_names_are_free()
    ensures
        forall|k: int|
            0 <= k < 16 ==> is_free_name(
                #[trigger] program_options().take(k),
                program_options()[k].long_name(),
            ),
{
    lemma_names_differ();
    let options = program_options();
    let names = option_names(options);
    assert forall|k: int| 0 <= k < 16 implies is_free_name(
        #[trigger] options.take(k),
        options[k].long_name(),
    ) by {
        assert(names[k] == options[k].long_name());
        assert forall|i: int| 0 <= i < options.take(k).len() implies (#[trigger] options.take(
            k,
        )[i]).long_name() != options[k].long_name() by {
            assert(names[i] == options[i].long_name());
        }
    }
}

/// What was found for each option, by its name.
proof fn lemma_all_found(found: Found, nothing_given: bool)
    requires
        forall|i: int|
            0 <= i < 16 ==> found.has(#[trigger] program_options()[i]) && (nothing_given
                ==> found.lacks(program_options()[i])),
    ensures
        found.flags.dom().contains("self-check"@),
        found.flags.dom().contains("show-status-bar"@),
        found.flags.dom().contains("input-log-raw"@),
        found.flags.dom().contains("no-cursor-slide"@),
        found.flags.dom().contains("force-vertical-cursor"@),
        found.flags.dom().contains("cursor-trail"@),
        found.flags.dom().contains("no-option-as-meta"@),
        found.flags.dom().contains("debug-http"@),
        found.flags.dom().contains("debug-http-allow-remote"@),
        found.values.dom().contains("font-family"@),
        found.values["font-family"@] is Some,
        found.values.dom().contains("ambiguous-width"@),
        found.values["ambiguous-width"@] is Some,
        width_of(found.values["ambiguous-width"@]->0) is Some,
        found.values.dom().contains("theme"@),
        found.values["theme"@] is Some,
        theme_of(found.values["theme"@]->0) is Some,
        found.values.dom().contains("input-log-file"@),
        found.values["input-log-file"@] != Some(Seq::<char>::empty()),
        found.values.dom().contains("debug-http-token"@),
        found.lists.dom().contains("font-fallback"@),
        found.lists.dom().contains("double-width-char"@),
        nothing_given ==> {
            &&& !found.flags["self-check"@]
            &&& !found.flags["show-status-bar"@]
            &&& !found.flags["input-log-raw"@]
            &&& !found.flags["no-cursor-slide"@]
            &&& !found.flags["force-vertical-cursor"@]
            &&& !found.flags["cursor-trail"@]
            &&& !found.flags["no-option-as-meta"@]
            &&& !found.flags["debug-http"@]
            &&& !found.flags["debug-http-allow-remote"@]
            &&& found.values["font-family"@] == Some("Menlo"@)
            &&& width_of(found.values["ambiguous-width"@]->0) == Some(AmbiguousWidth::Single)
            &&& theme_of(found.values["theme"@]->0) == Some(Theme::Default)
            &&& found.values["input-log-file"@] is None
            &&& found.values["debug-http-token"@] is None
            &&& found.lists["font-fallback"@].len() == 0
            &&& found.lists["double-width-char"@].len() == 0
        },
{
    let o = program_options();
    assert(found.has(o[0]) && found.has(o[1]) && found.has(o[2]) && found.has(o[3]));
    assert(found.has(o[4]) && found.has(o[5]) && found.has(o[6]) && found.has(o[7]));
    assert(found.has(o[8]) && found.has(o[9]) && found.has(o[10]) && found.has(o[11]));
    assert(found.has(o[12]) && found.has(o[13]) && found.has(o[14]) && found.has(o[15]));
}

fn program_command() -> (command: clap::Command)
    ensures
        command_options(command) == program_options(),
{
    proof {
        lemma_names_are_free();
    }
    let ghost all = program_options();
    let command = empty_command();
    assert(command_options(command) =~= all.take(0));
    let command = with_flag(command, "self-check", None);
    assert(command_options(command) =~= all.take(1));
    let command = with_flag(command, "show-status-bar", None);
    assert(command_options(command) =~= all.take(2));
    let command = with_text(command, "font-family", "FONT_FAMILY", Some("Menlo"));
    assert(command_options(command) =~= all.take(3));
    let command = with_list(command, "font-fallback", "FONT_FALLBACKS");
    assert(command_options(command) =~= all.take(4));
    let command = with_list(command, "double-width-char", "DOUBLE_WIDTH_CHARS");
    let widths: [&'static str; 2] = ["single", "double"];
    assert(str_views(widths@) =~= seq!["single"@, "double"@]);
    assert(str_views(widths@)[0] == "single"@);
    assert(command_options(command) =~= all.take(5));
    let command = with_choice(command, "ambiguous-width", "AMBIGUOUS_WIDTH", "single", &widths);
    let themes: [&'static str; 2] = ["default", "eye-care"];
    assert(str_views(themes@) =~= seq!["default"@, "eye-care"@]);
    assert(str_views(themes@)[0] == "default"@);
    assert(command_options(command) =~= all.take(6));
    let command = with_choice(command, "theme", "THEME", "default", &themes);
    assert(command_options(command) =~= all.take(7));
    let command = with_file(command, "input-log-file", "INPUT_LOG_FILE");
    assert(command_options(command) =~= all.take(8));
    let command = with_flag(command, "input-log-raw", None);
    assert(command_options(command) =~= all.take(9));
    let command = with_flag(
        command,
        "no-cursor-slide",
        Some("Disable smooth cursor slide animation"),
    );
    assert(command_options(command) =~= all.take(10));
    let command = with_flag(
        command,
        "force-vertical-cursor",
        Some("Force a vertical beam cursor regardless of app cursor mode"),
    );
    assert(command_options(command) =~= all.take(11));
    let command = with_flag(
        command,
        "cursor-trail",
        Some("Enable subtle trailing effect for vertical beam cursor"),
    );
    assert(command_options(command) =~= all.take(12));
    let command = with_flag(
        command,
        "no-option-as-meta",
        Some("Treat macOS Option key as plain text input instead of Meta/Alt"),
    );
    assert(command_options(command) =~= all.take(13));
    let command = with_flag(command, "debug-http", None);
    assert(command_options(command) =~= all.take(14));
    let command = with_text(command, "debug-http-token", "DEBUG_HTTP_TOKEN", None);
    assert(command_options(command) =~= all.take(15));
    let command = with_flag(command, "debug-http-allow-remote", None);
    assert(command_options(command) =~= all);
    command
}

/// Whether a result is what a command line stands for.
pub open spec fn is_outcome(
    r: Result<CliOptions, CliError>,
    program: Seq<char>,
    args: Seq<Seq<char>>,
) -> bool {
    match clap_outcome(program, program_options(), args) {
        Err((message, exit_code)) => r matches Err(error) && error.message@ == message
            && error.exit_code == exit_code,
        Ok((flags, values, lists)) => exists|found: FoundOptions|
            #[trigger] found.holds(Found { flags, values, lists }) && (r matches Ok(options)
                && are_options(options, found)),
    }
}

/// Whether options are those of a command line without arguments.
pub open spec fn are_defaults(options: CliOptions) -> bool {
    &&& !options.self_check
    &&& !options.show_status_bar
    &&& options.font_family@ == "Menlo"@
    &&& options.font_fallbacks@.len() == 0
    &&& options.double_width_chars@.len() == 0
    &&& options.ambiguous_width == AmbiguousWidth::Single
    &&& options.theme == Theme::Default
    &&& options.input_log_file is None
    &&& !options.input_log_raw
    &&& !options.no_cursor_slide
    &&& !options.force_vertical_cursor
    &&& !options.cursor_trail
    &&& !options.no_option_as_meta
    &&& !options.debug_http
    &&& options.debug_http_token is None
    &&& !options.debug_http_allow_remote
}

/// The value that was found for an option that has a default.
fn text_or_empty(value: Option<String>) -> (text: String)
    ensures
        value matches Some(v) ==> text@ == v@,
{
    match value {
        Some(text) => text,
        None => String::new(),
    }
}

/// The options on a command line: the name that the program was called by, and
/// the arguments behind it.
pub fn parse_cli_options(program: &str, args: Vec<String>) -> (r: Result<CliOptions, CliError>)
    ensures
        is_outcome(r, program@, text_views(args@)),
        args@.len() == 0 ==> r is Ok && are_defaults(r->Ok_0),
        r matches Ok(options) ==> text_view(options.input_log_file) != Some(Seq::<char>::empty()),
{
    let found = match find_options(program_command(), program, &args) {
        Ok(found) => found,
        Err(error) => return Err(CliError { message: error.0, exit_code: error.1 }),
    };
    let ghost by_name = Found {
        flags: found_flags(found),
        values: found_values(found),
        lists: found_lists(found),
    };
    proof {
        lemma_all_found(by_name, args@.len() == 0);
    }
    let options = FoundOptions {
        self_check: found_flag(&found, "self-check"),
        show_status_bar: found_flag(&found, "show-status-bar"),
        font_family: text_or_empty(found_value(&found, "font-family")),
        font_fallbacks: found_list(&found, "font-fallback"),
        double_width_chars: found_list(&found, "double-width-char"),
        ambiguous_width: text_or_empty(found_value(&found, "ambiguous-width")),
        theme: text_or_empty(found_value(&found, "theme")),
        input_log_file: found_value(&found, "input-log-file"),
        input_log_raw: found_flag(&found, "input-log-raw"),
        no_cursor_slide: found_flag(&found, "no-cursor-slide"),
        force_vertical_cursor: found_flag(&found, "force-vertical-cursor"),
        cursor_trail: found_flag(&found, "cursor-trail"),
        no_option_as_meta: found_flag(&found, "no-option-as-meta"),
        debug_http: found_flag(&found, "debug-http"),
        debug_http_token: found_value(&found, "debug-http-token"),
        debug_http_allow_remote: found_flag(&found, "debug-http-allow-remote"),
    };
    let ghost held = options;
    assert(held.holds(by_name));
    proof {
        let outcome = clap_outcome(program@, program_options(), text_views(args@));
        assert(outcome->Ok_0 == (by_name.flags, by_name.values, by_name.lists));
        let (flags, values, lists) = outcome->Ok_0;
        assert(by_name == (Found { flags, values, lists }));
    }
    match options_from(options) {
        Some(options) => Ok(options),
        None => Err(CliError { message: String::new(), exit_code: 2 }),
    }
}

/// The options of a program that is called by its own name.
pub fn parse_cli_options_from(args: Vec<String>) -> (r: Result<CliOptions, CliError>)
    ensures
        is_outcome(r, "agent_terminal"@, text_views(args@)),
        args@.len() == 0 ==> r is Ok && are_defaults(r->Ok_0),
        r matches Ok(options) ==> text_view(options.input_log_file) != Some(Seq::<char>::empty()),
{
    parse_cli_options("agent_terminal", args)
}

/// Law: what the program does is what was found on the command line under the
/// name of each option, and nothing else.
pub proof fn law_options_go_by_their_names(
    r: Result<CliOptions, CliError>,
    program: Seq<char>,
    args: Seq<Seq<char>>,
    found: Found,
)
    requires
        is_outcome(r, program, args),
        clap_outcome(program, program_options(), args) == Ok::<_, (Seq<char>, i32)>(
            (found.flags, found.values, found.lists),
        ),
    ensures
        r is Ok,
        ({
            let options = r->Ok_0;
            &&& options.self_check == found.flags["self-check"@]
            &&& options.show_status_bar == found.flags["show-status-bar"@]
            &&& options.input_log_raw == found.flags["input-log-raw"@]
            &&& options.no_cursor_slide == found.flags["no-cursor-slide"@]
            &&& options.force_vertical_cursor == found.flags["force-vertical-cursor"@]
            &&& options.cursor_trail == found.flags["cursor-trail"@]
            &&& options.no_option_as_meta == found.flags["no-option-as-meta"@]
            &&& options.debug_http == found.flags["debug-http"@]
            &&& options.debug_http_allow_remote == found.flags["debug-http-allow-remote"@]
            &&& found.values["font-family"@] == Some(options.font_family@)
            &&& found.values["input-log-file"@] == text_view(options.input_log_file)
            &&& found.values["debug-http-token"@] == text_view(options.debug_http_token)
            &&& found.lists["font-fallback"@] == text_views(options.font_fallbacks@)
            &&& found.lists["double-width-char"@] == text_views(options.double_width_chars@)
            &&& found.values["ambiguous-width"@] == Some("double"@) ==> options.ambiguous_width
                == AmbiguousWidth::Double
            &&& found.values["ambiguous-width"@] == Some("single"@) ==> options.ambiguous_width
                == AmbiguousWidth::Single
            &&& found.values["theme"@] == Some("eye-care"@) ==> options.theme == Theme::EyeCare
            &&& found.values["theme"@] == Some("default"@) ==> options.theme == Theme::Default
        }),
{
    law_choices_have_a_meaning("single"@);
    let (flags, values, lists) = (found.flags, found.values, found.lists);
    assert(found == (Found { flags, values, lists }));
    let held = choose|held: FoundOptions|
        #[trigger] held.holds(found) && (r matches Ok(options) && are_options(options, held));
    assert(held.holds(found));
}

/// Law: a width and a theme are told by their own names, of which no two mean
/// the same; another text means nothing.
pub proof fn law_choices_have_a_meaning(value: Seq<char>)
    ensures
        width_of("single"@) == Some(AmbiguousWidth::Single),
        width_of("double"@) == Some(AmbiguousWidth::Double),
        width_of(value) is Some <==> value == "single"@ || value == "double"@,
        theme_of("default"@) == Some(Theme::Default),
        theme_of("eye-care"@) == Some(Theme::EyeCare),
        theme_of(value) is Some <==> value == "default"@ || value == "eye-care"@,
{
    reveal_strlit("single");
    reveal_strlit("double");
    reveal_strlit("default");
    reveal_strlit("eye-care");
    assert("single"@[0] == 's');
    assert("double"@[0] == 'd');
    assert("default"@[0] == 'd');
    assert("eye-care"@[0] == 'e');
}

/// Law: every choice that is offered has a meaning, and so has the default; what
/// stands where nothing is given is a single width, the default theme and Menlo.
pub proof fn law_every_choice_can_be_taken(i: int, value: Seq<char>)
    requires
        0 <= i < program_options().len(),
    ensures
        match program_options()[i] {
            OptionView::Choice { name, default, values, .. } => {
                &&& name == "ambiguous-width"@ ==> {
                    &&& values.contains(value) <==> width_of(value) is Some
                    &&& default == Some("single"@)
                }
                &&& name == "theme"@ ==> {
                    &&& values.contains(value) <==> theme_of(value) is Some
                    &&& default == Some("default"@)
                }
                &&& name == "ambiguous-width"@ || name == "theme"@
            },
            OptionView::Text { name, default, .. } => {
                &&& name == "font-family"@ ==> default == Some("Menlo"@)
                &&& name == "debug-http-token"@ ==> default is None
                &&& name == "font-family"@ || name == "debug-http-token"@
            },
            OptionView::File { name, .. } => name == "input-log-file"@,
            OptionView::List { name, .. } => name == "font-fallback"@ || name
                == "double-width-char"@,
            OptionView::Flag { .. } => true,
        },
{
    lemma_names_differ();
    let options = program_options();
    let names = option_names(options);
    assert(names[2] == "font-family"@ && names[14] == "debug-http-token"@);
    assert(names[5] == "ambiguous-width"@ && names[6] == "theme"@);
    assert(names[i] == options[i].long_name());
    law_choices_have_a_meaning(value);
    let widths = seq!["single"@, "double"@];
    let themes = seq!["default"@, "eye-care"@];
    assert(widths[0] == "single"@ && widths[1] == "double"@);
    assert(themes[0] == "default"@ && themes[1] == "eye-care"@);
    assert(widths.contains(value) <==> value == "single"@ || value == "double"@);
    assert(themes.contains(value) <==> value == "default"@ || value == "eye-care"@);
}

/// Law: where there are no options, the message and the exit status are those
/// that were given for it.
pub proof fn law_errors_are_passed_on(
    r: Result<CliOptions, CliError>,
    program: Seq<char>,
    args: Seq<Seq<char>>,
    message: Seq<char>,
    exit_code: i32,
)
    requires
        is_outcome(r, program, args),
        clap_outcome(program, program_options(), args) == Err::<
            (
                Map<Seq<char>, bool>,
                Map<Seq<char>, Option<Seq<char>>>,
                Map<Seq<char>, Seq<Seq<char>>>,
            ),
            _,
        >((message, exit_code)),
    ensures
        r is Err,
        r->Err_0.message@ == message,
        r->Err_0.exit_code == exit_code,
{
}

} // verus!
