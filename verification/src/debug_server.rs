//! The rules of the debug server: who is let in, where a request leads, and
//! what it does to the state that the server shows.
//!
//! The server can write to the shell. So it is off unless it is asked for, and
//! every request, reads included, must carry a token, name a loopback host, and
//! keep within a limit on its length.
use vstd::prelude::*;
use vstd::utf8::{decode_utf8, valid_utf8};

use crate::chars::{
    ascii_lower_text, ascii_text, bytes_to_hex, bytes_view, chars_of, decimal, hex_text,
    lemma_trims_to_nothing, push_decimal_chars, push_text, same_text, same_text_ignoring_case,
    text_from_utf8, text_of, text_view, trim_text, trimmed, whitespace_char,
};
use crate::terminal::GridSize;

verus! {

pub const DEBUG_HTTP_DEFAULT_PORT_START: u16 = 37878;

pub const DEBUG_HTTP_DEFAULT_PORT_END: u16 = 37977;

/// How many ports are tried before the search for a free one ends.
pub const DEBUG_HTTP_PORT_ATTEMPTS: u16 = 100;

/// The longest body of a request.
pub const MAX_DEBUG_BODY_BYTES: u64 = 1024 * 1024;

// ---------------------------------------------------------------------------
// The token
// ---------------------------------------------------------------------------

/// The token that random bytes make.
pub fn random_token(bytes: &[u8]) -> (token: String)
    ensures
        token@ == hex_text(bytes@),
{
    bytes_to_hex(bytes)
}

/// How the server is run.
pub struct DebugHttpConfig {
    token: String,
    allow_remote: bool,
}

/// The token to ask for: the one that was given, without the blanks around it,
/// or else one made of random bytes. Without either there is none, and the
/// server must not start: a token that can be guessed would be worse. No token is
/// empty.
pub open spec fn chosen_token(given: Option<Seq<char>>, random: Option<Seq<u8>>) -> Option<
    Seq<char>,
> {
    match given {
        Some(text) if trimmed(text).len() > 0 => Some(trimmed(text)),
        _ => match random {
            Some(bytes) if bytes.len() > 0 => Some(hex_text(bytes)),
            _ => None,
        },
    }
}

impl DebugHttpConfig {
    /// The token is not empty.
    #[verifier::type_invariant]
    spec fn has_token(self) -> bool {
        self.token@.len() > 0
    }

    pub closed spec fn token_text(&self) -> Seq<char> {
        self.token@
    }

    pub closed spec fn remote_allowed(&self) -> bool {
        self.allow_remote
    }

    /// `random` is what the system's source of random bytes gave, if it did.
    pub fn new(token: Option<String>, allow_remote: bool, random: Option<Vec<u8>>) -> (config:
        Option<DebugHttpConfig>)
        ensures
            match config {
                Some(c) => chosen_token(text_view(token), bytes_view(random)) == Some(
                    c.token_text(),
                ) && c.token_text().len() > 0 && c.remote_allowed() == allow_remote,
                None => chosen_token(text_view(token), bytes_view(random)) is None,
            },
    {
        if let Some(text) = &token {
            let given = trim_text(text.as_str());
            if !given.as_str().is_empty() {
                return Some(DebugHttpConfig { token: given, allow_remote });
            }
        }
        match random {
            Some(bytes) => {
                if bytes.len() == 0 {
                    return None;
                }
                proof {
                    lemma_hex_text_len(bytes@);
                }
                Some(DebugHttpConfig { token: random_token(bytes.as_slice()), allow_remote })
            },
            None => None,
        }
    }

    pub fn token(&self) -> (token: &str)
        ensures
            token@ == self.token_text(),
            token@.len() > 0,
    {
        proof {
            use_type_invariant(self);
        }
        self.token.as_str()
    }

    pub fn allow_remote(&self) -> (r: bool)
        ensures
            r == self.remote_allowed(),
    {
        self.allow_remote
    }
}

/// Whether a token is the expected one. All bytes are looked at whatever they
/// are, so that the time taken does not tell how many of them are right.
pub fn token_matches(expected: &str, provided: &str) -> (r: bool)
    ensures
        r == (expected@ == provided@),
{
    let a: &[u8] = expected.as_bytes();
    let b: &[u8] = provided.as_bytes();
    proof {
        vstd::utf8::encode_utf8_decode_utf8(expected@);
        vstd::utf8::encode_utf8_decode_utf8(provided@);
    }
    if a.len() != b.len() {
        return false;
    }
    let mut difference: u8 = 0;
    let mut i: usize = 0;
    while i < a.len()
        invariant
            i <= a@.len(),
            a@.len() == b@.len(),
            difference == 0 <==> forall|k: int| 0 <= k < i ==> a@[k] == b@[k],
        decreases a@.len() - i,
    {
        let x: u8 = a[i];
        let y: u8 = b[i];
        assert((difference | (x ^ y)) == 0 <==> difference == 0 && x == y) by (bit_vector);
        difference = difference | (x ^ y);
        i += 1;
    }
    proof {
        if difference == 0 {
            assert(a@ =~= b@);
        }
    }
    difference == 0
}

// ---------------------------------------------------------------------------
// The host
// ---------------------------------------------------------------------------

pub open spec fn all_digits(text: Seq<char>) -> bool {
    forall|i: int| 0 <= i < text.len() ==> '0' <= #[trigger] text[i] <= '9'
}

/// The place of the last colon.
pub open spec fn last_colon(text: Seq<char>) -> Option<int>
    decreases text.len(),
{
    if text.len() == 0 {
        None
    } else if text.last() == ':' {
        Some(text.len() - 1)
    } else {
        last_colon(text.drop_last())
    }
}

/// A host without its port.
pub open spec fn without_port(host: Seq<char>) -> Seq<char> {
    match last_colon(host) {
        Some(at) => if all_digits(host.skip(at + 1)) {
            host.take(at)
        } else {
            host
        },
        None => host,
    }
}

pub open spec fn without_opening(text: Seq<char>) -> Seq<char>
    decreases text.len(),
{
    if text.len() > 0 && text[0] == '[' {
        without_opening(text.skip(1))
    } else {
        text
    }
}

pub open spec fn without_closing(text: Seq<char>) -> Seq<char>
    decreases text.len(),
{
    if text.len() > 0 && text.last() == ']' {
        without_closing(text.drop_last())
    } else {
        text
    }
}

/// The name in a `Host` header: without blanks, port and brackets.
pub open spec fn name_in_host(host: Seq<char>) -> Seq<char> {
    without_closing(without_opening(without_port(trimmed(host))))
}

proof fn lemma_last_colon(text: Seq<char>, at: int)
    requires
        0 <= at < text.len(),
        text[at] == ':',
        forall|k: int| at < k < text.len() ==> #[trigger] text[k] != ':',
    ensures
        last_colon(text) == Some(at),
    decreases text.len(),
{
    if at < text.len() - 1 {
        assert(text.last() != ':');
        assert forall|k: int| at < k < text.drop_last().len() implies #[trigger] text.drop_last()[k]
            != ':' by {
            assert(text.drop_last()[k] == text[k]);
        }
        lemma_last_colon(text.drop_last(), at);
    }
}

proof fn lemma_no_colon(text: Seq<char>)
    requires
        forall|k: int| 0 <= k < text.len() ==> #[trigger] text[k] != ':',
    ensures
        last_colon(text) is None,
    decreases text.len(),
{
    if text.len() > 0 {
        assert(text.last() != ':');
        assert forall|k: int| 0 <= k < text.drop_last().len() implies #[trigger] text.drop_last()[k]
            != ':' by {
            assert(text.drop_last()[k] == text[k]);
        }
        lemma_no_colon(text.drop_last());
    }
}

/// How many characters of a host its port leaves.
fn len_without_port(chars: &[char]) -> (len: usize)
    ensures
        len <= chars@.len(),
        without_port(chars@) == chars@.take(len as int),
{
    let mut at: usize = chars.len();
    let mut digits = true;
    while at > 0
        invariant
            at <= chars@.len(),
            forall|k: int| at <= k < chars@.len() ==> #[trigger] chars@[k] != ':',
            digits == (forall|k: int|
                at <= k < chars@.len() ==> '0' <= #[trigger] chars@[k] <= '9'),
        decreases at,
    {
        let c: char = chars[at - 1];
        if c == ':' {
            proof {
                lemma_last_colon(chars@, at - 1);
                let tail = chars@.skip(at as int);
                assert(digits == all_digits(tail)) by {
                    if digits {
                        assert forall|i: int| 0 <= i < tail.len() implies '0' <= #[trigger] tail[i]
                            <= '9' by {
                            assert(tail[i] == chars@[at + i]);
                        }
                    } else {
                        let k = choose|k: int|
                            at <= k < chars@.len() && !('0' <= #[trigger] chars@[k] <= '9');
                        assert(tail[k - at] == chars@[k]);
                    }
                }
                assert(chars@.take(chars@.len() as int) =~= chars@);
            }
            return if digits {
                at - 1
            } else {
                chars.len()
            };
        }
        if !('0' <= c && c <= '9') {
            assert(!('0' <= chars@[at - 1] <= '9'));
            digits = false;
        }
        at -= 1;
    }
    proof {
        lemma_no_colon(chars@);
        assert(chars@.take(chars@.len() as int) =~= chars@);
    }
    chars.len()
}

/// The name in a `Host` header.
pub fn host_name(host: &str) -> (name: String)
    ensures
        name@ == name_in_host(host@),
{
    let text = trim_text(host);
    let chars = chars_of(text.as_str());
    let mut end: usize = len_without_port(chars.as_slice());
    let ghost bare = chars@.take(end as int);
    let mut start: usize = 0;
    assert(bare =~= chars@.subrange(0, end as int));
    while start < end && chars[start] == '['
        invariant
            start <= end <= chars@.len(),
            without_opening(chars@.subrange(start as int, end as int)) == without_opening(bare),
        decreases end - start,
    {
        assert(chars@.subrange(start as int, end as int).skip(1) =~= chars@.subrange(
            start + 1,
            end as int,
        ));
        start += 1;
    }
    let ghost opened = chars@.subrange(start as int, end as int);
    assert(opened == without_opening(bare));
    while start < end && chars[end - 1] == ']'
        invariant
            start <= end <= chars@.len(),
            without_closing(chars@.subrange(start as int, end as int)) == without_closing(opened),
        decreases end - start,
    {
        assert(chars@.subrange(start as int, end as int).drop_last() =~= chars@.subrange(
            start as int,
            end - 1,
        ));
        end -= 1;
    }
    text_of(vstd::slice::slice_subrange(chars.as_slice(), start, end))
}

/// Whether a `Host` header names this machine: by the name `localhost`, or by
/// an address that is a loopback one. A name that an outsider controls may lead
/// here too, but then the header holds that name. A request without the header
/// is not let in.
pub open spec fn names_loopback(host: Option<Seq<char>>, address_is_loopback: bool) -> bool {
    match host {
        Some(text) => ascii_lower_text(name_in_host(text)) == ascii_lower_text("localhost"@)
            || address_is_loopback,
        None => false,
    }
}

/// `address_is_loopback` says whether the name in the header, as [`host_name`]
/// gives it, is the address of a loopback interface.
pub fn host_is_loopback(host: &Option<String>, address_is_loopback: bool) -> (r: bool)
    ensures
        r == names_loopback(text_view(*host), address_is_loopback),
{
    match host {
        Some(text) => {
            let name = host_name(text.as_str());
            same_text_ignoring_case(name.as_str(), "localhost") || address_is_loopback
        },
        None => false,
    }
}

pub open spec fn all_true(values: Seq<bool>) -> bool {
    forall|i: int| 0 <= i < values.len() ==> #[trigger] values[i]
}

/// Whether an address to listen on is a loopback one: by itself where it is an
/// address, else by all that its name resolves to, which must be something.
pub fn addr_is_loopback(parsed: Option<bool>, resolved: Option<Vec<bool>>) -> (r: bool)
    ensures
        r == match parsed {
            Some(loopback) => loopback,
            None => match resolved {
                Some(all) => all@.len() > 0 && all_true(all@),
                None => false,
            },
        },
{
    match parsed {
        Some(loopback) => loopback,
        None => match resolved {
            Some(all) => all.len() > 0 && are_all_true(all.as_slice()),
            None => false,
        },
    }
}

fn are_all_true(values: &[bool]) -> (r: bool)
    ensures
        r == all_true(values@),
{
    let mut i: usize = 0;
    while i < values.len()
        invariant
            i <= values@.len(),
            forall|k: int| 0 <= k < i ==> #[trigger] values@[k],
        decreases values@.len() - i,
    {
        if !values[i] {
            assert(!values@[i as int]);
            return false;
        }
        i += 1;
    }
    true
}

// ---------------------------------------------------------------------------
// Where to listen
// ---------------------------------------------------------------------------

pub enum BindPlan {
    /// Listen on this address.
    At(String),
    /// Listen nowhere, and say why.
    Refuse(String),
    /// Listen on the first free port of the default range.
    DefaultRange,
}

pub ghost enum BindPlanView {
    At(Seq<char>),
    Refuse(Seq<char>),
    DefaultRange,
}

impl View for BindPlan {
    type V = BindPlanView;

    open spec fn view(&self) -> BindPlanView {
        match self {
            BindPlan::At(addr) => BindPlanView::At(addr@),
            BindPlan::Refuse(message) => BindPlanView::Refuse(message@),
            BindPlan::DefaultRange => BindPlanView::DefaultRange,
        }
    }
}

pub open spec fn refusal(addr: Seq<char>) -> Seq<char> {
    "refusing to start debug server on non-loopback address "@ + addr
        + ": this endpoint can execute arbitrary commands in your shell. Pass --debug-http-allow-remote if you really mean it."@
}

/// An address that is asked for is taken where it is a loopback one or others
/// are allowed, and refused where not.
pub open spec fn bind_plan(
    asked: Option<Seq<char>>,
    asked_is_loopback: bool,
    allow_remote: bool,
) -> BindPlanView {
    match asked {
        Some(addr) if trimmed(addr).len() > 0 => if allow_remote || asked_is_loopback {
            BindPlanView::At(addr)
        } else {
            BindPlanView::Refuse(refusal(addr))
        },
        _ => BindPlanView::DefaultRange,
    }
}

pub fn plan_debug_http_server(
    asked: Option<String>,
    asked_is_loopback: bool,
    config: &DebugHttpConfig,
) -> (plan: BindPlan)
    ensures
        plan@ == bind_plan(text_view(asked), asked_is_loopback, config.remote_allowed()),
{
    if let Some(addr) = asked {
        if !trim_text(addr.as_str()).as_str().is_empty() {
            if !config.allow_remote && !asked_is_loopback {
                let mut message: Vec<char> = Vec::new();
                push_text(
                    &mut message,
                    "refusing to start debug server on non-loopback address ",
                );
                push_text(&mut message, addr.as_str());
                push_text(
                    &mut message,
                    ": this endpoint can execute arbitrary commands in your shell. Pass --debug-http-allow-remote if you really mean it.",
                );
                assert(message@ =~= refusal(addr@));
                return BindPlan::Refuse(text_of(message.as_slice()));
            }
            return BindPlan::At(addr);
        }
    }
    BindPlan::DefaultRange
}

/// Whether the server starts with the program.
pub enum DebugStartup {
    /// It was not asked for.
    Off,
    /// It starts, and the user is told the token.
    Start(DebugHttpConfig, String),
    /// It does not start, and the user is told why.
    Refuse(String),
}

/// The message with the token, without which the user could not use the server.
pub open spec fn token_message(token: Seq<char>) -> Seq<char> {
    "debug http enabled; authenticate with header \"X-Debug-Token: "@ + token + "\""@
}

/// The server is off unless it is asked for, and does not start without a
/// token.
pub fn plan_debug_startup(
    asked_for: bool,
    token: Option<String>,
    allow_remote: bool,
    random: Option<Vec<u8>>,
) -> (startup: DebugStartup)
    ensures
        match startup {
            DebugStartup::Off => !asked_for,
            DebugStartup::Start(config, message) => {
                &&& asked_for
                &&& chosen_token(text_view(token), bytes_view(random)) == Some(config.token_text())
                &&& config.remote_allowed() == allow_remote
                &&& message@ == token_message(config.token_text())
            },
            DebugStartup::Refuse(message) => {
                &&& asked_for
                &&& chosen_token(text_view(token), bytes_view(random)) is None
                &&& message@
                    == "refusing to start debug server: could not read /dev/urandom to generate an auth token (pass --debug-http-token to supply one)"@
            },
        },
{
    if !asked_for {
        return DebugStartup::Off;
    }
    match DebugHttpConfig::new(token, allow_remote, random) {
        Some(config) => {
            let mut message: Vec<char> = Vec::new();
            push_text(&mut message, "debug http enabled; authenticate with header \"X-Debug-Token: ");
            push_text(&mut message, config.token());
            push_text(&mut message, "\"");
            assert(message@ =~= token_message(config.token_text()));
            let text = text_of(message.as_slice());
            DebugStartup::Start(config, text)
        },
        None => DebugStartup::Refuse(
            "refusing to start debug server: could not read /dev/urandom to generate an auth token (pass --debug-http-token to supply one)".to_owned(),
        ),
    }
}

/// The port to try, given where the search stands.
pub open spec fn default_port(current: u16) -> u16 {
    if DEBUG_HTTP_DEFAULT_PORT_START <= current <= DEBUG_HTTP_DEFAULT_PORT_END {
        current
    } else {
        DEBUG_HTTP_DEFAULT_PORT_START
    }
}

/// Where the search stands next: it goes round the range.
pub open spec fn following_port(current: u16) -> u16 {
    if DEBUG_HTTP_DEFAULT_PORT_START <= current < DEBUG_HTTP_DEFAULT_PORT_END {
        (current + 1) as u16
    } else {
        DEBUG_HTTP_DEFAULT_PORT_START
    }
}

pub fn next_default_port(current: u16) -> (next: u16)
    ensures
        next == following_port(current),
{
    if DEBUG_HTTP_DEFAULT_PORT_START <= current && current < DEBUG_HTTP_DEFAULT_PORT_END {
        current + 1
    } else {
        DEBUG_HTTP_DEFAULT_PORT_START
    }
}

/// The address to try, given where the search stands.
pub fn next_default_debug_http_addr(current: u16) -> (addr: String)
    ensures
        addr@ == "127.0.0.1:"@ + ascii_text(decimal(default_port(current) as nat)),
{
    let port: u16 = if DEBUG_HTTP_DEFAULT_PORT_START <= current && current
        <= DEBUG_HTTP_DEFAULT_PORT_END {
        current
    } else {
        DEBUG_HTTP_DEFAULT_PORT_START
    };
    let mut chars: Vec<char> = Vec::new();
    push_text(&mut chars, "127.0.0.1:");
    push_decimal_chars(&mut chars, port as u64);
    assert(chars@ =~= "127.0.0.1:"@ + ascii_text(decimal(port as nat)));
    text_of(chars.as_slice())
}

/// Where the search stands after so many steps.
pub open spec fn port_after(current: u16, steps: nat) -> u16
    decreases steps,
{
    if steps == 0 {
        current
    } else {
        following_port(port_after(current, (steps - 1) as nat))
    }
}

/// Law: within its attempts the search reaches every port of the range from any
/// other; there are as many attempts as ports.
pub proof fn law_port_search_covers_the_range(current: u16, wanted: u16)
    requires
        DEBUG_HTTP_DEFAULT_PORT_START <= current <= DEBUG_HTTP_DEFAULT_PORT_END,
        DEBUG_HTTP_DEFAULT_PORT_START <= wanted <= DEBUG_HTTP_DEFAULT_PORT_END,
    ensures
        exists|steps: nat|
            steps < DEBUG_HTTP_PORT_ATTEMPTS && port_after(current, steps) == wanted,
        port_after(current, DEBUG_HTTP_PORT_ATTEMPTS as nat) == current,
        DEBUG_HTTP_PORT_ATTEMPTS == DEBUG_HTTP_DEFAULT_PORT_END - DEBUG_HTTP_DEFAULT_PORT_START + 1,
{
    let steps: nat = if current <= wanted {
        (wanted - current) as nat
    } else {
        (wanted + 100 - current) as nat
    };
    lemma_port_after(current, steps);
    lemma_port_after(current, 100);
    assert(port_after(current, steps) == wanted);
}

proof fn lemma_port_after(current: u16, steps: nat)
    requires
        DEBUG_HTTP_DEFAULT_PORT_START <= current <= DEBUG_HTTP_DEFAULT_PORT_END,
        steps <= 100,
    ensures
        port_after(current, steps) == if current + steps <= DEBUG_HTTP_DEFAULT_PORT_END {
            current + steps
        } else {
            current + steps - 100
        },
    decreases steps,
{
    if steps > 0 {
        lemma_port_after(current, (steps - 1) as nat);
    }
}

/// Whether the value of the variable that asks for a start message is a yes.
pub open spec fn is_yes(value: Seq<char>) -> bool {
    let v = trimmed(value);
    v == "1"@ || ascii_lower_text(v) == ascii_lower_text("true"@) || ascii_lower_text(v)
        == ascii_lower_text("yes"@)
}

pub fn should_log_debug_http_start(value: Option<String>) -> (r: bool)
    ensures
        r == match value {
            Some(text) => is_yes(text@),
            None => false,
        },
{
    match value {
        Some(text) => {
            let v = trim_text(text.as_str());
            same_text(v.as_str(), "1") || same_text_ignoring_case(v.as_str(), "true")
                || same_text_ignoring_case(v.as_str(), "yes")
        },
        None => false,
    }
}

// ---------------------------------------------------------------------------
// Replies
// ---------------------------------------------------------------------------

#[derive(Clone, Copy, Debug, PartialEq, Eq, Structural)]
pub enum ContentType {
    PlainText,
    Json,
}

impl ContentType {
    pub fn media_type(self) -> (value: &'static str)
        ensures
            value@ == match self {
                ContentType::PlainText => "text/plain; charset=utf-8"@,
                ContentType::Json => "application/json; charset=utf-8"@,
            },
    {
        match self {
            ContentType::PlainText => "text/plain; charset=utf-8",
            ContentType::Json => "application/json; charset=utf-8",
        }
    }
}

pub struct Reply {
    pub status: u16,
    pub content_type: ContentType,
    pub body: String,
}

pub ghost struct ReplyView {
    pub status: u16,
    pub content_type: ContentType,
    pub body: Seq<char>,
}

impl View for Reply {
    type V = ReplyView;

    open spec fn view(&self) -> ReplyView {
        ReplyView { status: self.status, content_type: self.content_type, body: self.body@ }
    }
}

pub open spec fn text_reply(status: u16, body: Seq<char>) -> ReplyView {
    ReplyView { status, content_type: ContentType::PlainText, body }
}

pub fn text_response(status: u16, body: &str) -> (reply: Reply)
    ensures
        reply@ == text_reply(status, body@),
{
    Reply { status, content_type: ContentType::PlainText, body: body.to_owned() }
}

/// The reply that carries the state, given its JSON text.
pub fn state_response(json: String) -> (reply: Reply)
    ensures
        reply@ == (ReplyView { status: 200, content_type: ContentType::Json, body: json@ }),
{
    Reply { status: 200, content_type: ContentType::Json, body: json }
}

// ---------------------------------------------------------------------------
// Who is let in
// ---------------------------------------------------------------------------

/// A header of a request.
pub struct HttpHeader {
    pub field: String,
    pub value: String,
}

/// The value of the first header of the given name, whatever the case of its
/// letters.
pub open spec fn named_header(headers: Seq<HttpHeader>, name: Seq<char>) -> Option<Seq<char>>
    decreases headers.len(),
{
    if headers.len() == 0 {
        None
    } else if ascii_lower_text(headers[0].field@) == ascii_lower_text(name) {
        Some(headers[0].value@)
    } else {
        named_header(headers.skip(1), name)
    }
}

pub fn header_value<'a>(headers: &'a [HttpHeader], name: &str) -> (value: Option<&'a str>)
    ensures
        match value {
            Some(text) => named_header(headers@, name@) == Some(text@),
            None => named_header(headers@, name@) is None,
        },
{
    let mut i: usize = 0;
    assert(headers@.skip(0) =~= headers@);
    while i < headers.len()
        invariant
            i <= headers@.len(),
            named_header(headers@.skip(i as int), name@) == named_header(headers@, name@),
        decreases headers@.len() - i,
    {
        assert(headers@.skip(i as int)[0] == headers@[i as int]);
        if same_text_ignoring_case(headers[i].field.as_str(), name) {
            return Some(headers[i].value.as_str());
        }
        assert(headers@.skip(i as int).skip(1) =~= headers@.skip(i + 1));
        i += 1;
    }
    None
}

/// What admission looks at in a request.
pub struct RequestHead {
    pub host: Option<String>,
    /// Whether the name in `host` is a loopback address.
    pub host_address_is_loopback: bool,
    pub token: Option<String>,
    pub body_length: Option<u64>,
}

/// Why a request is turned away, if it is: for its host, then for its token,
/// then for its length.
pub open spec fn rejection(head: RequestHead, config: DebugHttpConfig) -> Option<ReplyView> {
    if !config.remote_allowed() && !names_loopback(
        text_view(head.host),
        head.host_address_is_loopback,
    ) {
        Some(text_reply(403, "forbidden: Host header must be loopback\n"@))
    } else if text_view(head.token) != Some(config.token_text()) {
        Some(text_reply(401, "unauthorized: missing or invalid X-Debug-Token\n"@))
    } else if head.body_length matches Some(length) && length > MAX_DEBUG_BODY_BYTES {
        Some(text_reply(413, "payload too large\n"@))
    } else {
        None
    }
}

pub open spec fn reply_view(reply: Option<Reply>) -> Option<ReplyView> {
    match reply {
        Some(r) => Some(r@),
        None => None,
    }
}

pub fn reject_unauthorized(head: &RequestHead, config: &DebugHttpConfig) -> (r: Option<Reply>)
    ensures
        reply_view(r) == rejection(*head, *config),
{
    if !config.allow_remote && !host_is_loopback(&head.host, head.host_address_is_loopback) {
        return Some(text_response(403, "forbidden: Host header must be loopback\n"));
    }
    let matches = match &head.token {
        Some(token) => token_matches(config.token.as_str(), token.as_str()),
        None => false,
    };
    if !matches {
        return Some(text_response(401, "unauthorized: missing or invalid X-Debug-Token\n"));
    }
    if let Some(length) = head.body_length {
        if length > MAX_DEBUG_BODY_BYTES {
            return Some(text_response(413, "payload too large\n"));
        }
    }
    None
}

/// Law: whoever does not carry the token is turned away, and so is, unless
/// others are allowed, whoever does not name a loopback host, and whoever sends
/// too long a body; nobody else is.
pub proof fn law_only_token_holders_are_let_in(head: RequestHead, config: DebugHttpConfig)
    ensures
        rejection(head, config) is None ==> head.token is Some && head.token->0@
            == config.token_text(),
        rejection(head, config) is None && !config.remote_allowed() ==> names_loopback(
            text_view(head.host),
            head.host_address_is_loopback,
        ),
        rejection(head, config) is None ==> (head.body_length matches Some(length) ==> length
            <= MAX_DEBUG_BODY_BYTES),
        text_view(head.token) == Some(config.token_text()) && (config.remote_allowed()
            || names_loopback(text_view(head.host), head.host_address_is_loopback)) && !(
        head.body_length matches Some(length) && length > MAX_DEBUG_BODY_BYTES) ==> rejection(
            head,
            config,
        ) is None,
        rejection(head, config) matches Some(reply) ==> reply.status == 403 || reply.status == 401
            || reply.status == 413,
{
}

/// Law: the token of a server is never empty. (Random bytes make one that is
/// twice as long as they are.)
pub proof fn law_tokens_are_not_empty(given: Option<Seq<char>>, random: Option<Seq<u8>>)
    ensures
        chosen_token(given, random) matches Some(token) ==> token.len() > 0,
        (trimmed(given.unwrap_or(Seq::empty())).len() == 0 && random is Some && (random->0).len()
            > 0) ==> (chosen_token(given, random)->0).len() == 2 * (random->0).len(),
{
    if let Some(bytes) = random {
        lemma_hex_text_len(bytes);
    }
    if given is None {
        assert(trimmed(Seq::<char>::empty()).len() == 0);
    }
}

proof fn lemma_hex_text_len(bytes: Seq<u8>)
    ensures
        hex_text(bytes).len() == 2 * bytes.len(),
    decreases bytes.len(),
{
    if bytes.len() > 0 {
        lemma_hex_text_len(bytes.drop_last());
    }
}

// ---------------------------------------------------------------------------
// Where a request leads
// ---------------------------------------------------------------------------

#[derive(Clone, Copy, Debug, PartialEq, Eq, Structural)]
pub enum Endpoint {
    State,
    Screen,
    Note,
    Input,
    ReplaceLine,
}

#[derive(Clone, Copy, Debug, PartialEq, Eq, Structural)]
pub enum Route {
    /// The list of endpoints.
    Index,
    /// The list of sessions.
    Tabs,
    /// An endpoint of the session with this number, or of the first one.
    Session(Option<u64>, Endpoint),
    Unknown,
}

/// The endpoint of a session by its method and name.
pub open spec fn endpoint_of(method: Seq<char>, name: Seq<char>) -> Option<Endpoint> {
    if method == "GET"@ && name == "state"@ {
        Some(Endpoint::State)
    } else if method == "GET"@ && name == "screen"@ {
        Some(Endpoint::Screen)
    } else if method == "POST"@ && name == "note"@ {
        Some(Endpoint::Note)
    } else if method == "POST"@ && name == "input"@ {
        Some(Endpoint::Input)
    } else if method == "POST"@ && name == "replace-line"@ {
        Some(Endpoint::ReplaceLine)
    } else {
        None
    }
}

fn find_endpoint(method: &str, name: &str) -> (r: Option<Endpoint>)
    ensures
        r == endpoint_of(method@, name@),
{
    if same_text(method, "GET") && same_text(name, "state") {
        Some(Endpoint::State)
    } else if same_text(method, "GET") && same_text(name, "screen") {
        Some(Endpoint::Screen)
    } else if same_text(method, "POST") && same_text(name, "note") {
        Some(Endpoint::Note)
    } else if same_text(method, "POST") && same_text(name, "input") {
        Some(Endpoint::Input)
    } else if same_text(method, "POST") && same_text(name, "replace-line") {
        Some(Endpoint::ReplaceLine)
    } else {
        None
    }
}

/// The number that decimal digits write.
pub open spec fn digits_value(text: Seq<char>) -> nat
    decreases text.len(),
{
    if text.len() == 0 {
        0
    } else {
        (digits_value(text.drop_last()) * 10 + (text.last() as u32 - 0x30)) as nat
    }
}

/// The number of a session: decimal digits, and no more than the type holds.
pub open spec fn session_number(text: Seq<char>) -> Option<u64> {
    if text.len() > 0 && all_digits(text) && digits_value(text) <= u64::MAX {
        Some(digits_value(text) as u64)
    } else {
        None
    }
}

proof fn lemma_digits_value_grows(text: Seq<char>, k: int)
    requires
        0 <= k <= text.len(),
        all_digits(text),
    ensures
        digits_value(text.take(k)) <= digits_value(text),
    decreases text.len(),
{
    if k < text.len() {
        let front = text.drop_last();
        assert forall|i: int| 0 <= i < front.len() implies '0' <= #[trigger] front[i] <= '9' by {
            assert(front[i] == text[i]);
        }
        assert('0' <= text[text.len() - 1] <= '9');
        lemma_digits_value_grows(front, k);
        assert(front.take(k) =~= text.take(k));
    } else {
        assert(text.take(k) =~= text);
    }
}

fn parse_session_number(chars: &[char]) -> (r: Option<u64>)
    ensures
        r == session_number(chars@),
{
    if chars.len() == 0 {
        return None;
    }
    let mut value: u64 = 0;
    let mut i: usize = 0;
    assert(chars@.take(0) =~= Seq::<char>::empty());
    while i < chars.len()
        invariant
            i <= chars@.len(),
            chars@.len() > 0,
            value == digits_value(chars@.take(i as int)),
            forall|k: int| 0 <= k < i ==> '0' <= #[trigger] chars@[k] <= '9',
        decreases chars@.len() - i,
    {
        let c: char = chars[i];
        if !('0' <= c && c <= '9') {
            assert(!('0' <= chars@[i as int] <= '9'));
            return None;
        }
        let digit: u64 = (c as u32 - 0x30) as u64;
        let ghost taken = chars@.take(i + 1);
        assert(taken.drop_last() =~= chars@.take(i as int));
        assert(digits_value(taken) == value * 10 + digit);
        if value > (u64::MAX - digit) / 10 {
            proof {
                if all_digits(chars@) {
                    lemma_digits_value_grows(chars@, i + 1);
                    assert(value * 10 + digit > u64::MAX);
                }
            }
            return None;
        }
        value = value * 10 + digit;
        i += 1;
    }
    assert(chars@.take(chars@.len() as int) =~= chars@);
    Some(value)
}

/// The place of the first slash.
pub open spec fn first_slash(text: Seq<char>, from: int) -> Option<int>
    decreases text.len() - from,
{
    if from >= text.len() {
        None
    } else if text[from] == '/' {
        Some(from)
    } else {
        first_slash(text, from + 1)
    }
}

/// The route of `/debug/tabs/<number>/<name>`, given what follows
/// `/debug/tabs/`.
pub open spec fn tab_route(method: Seq<char>, rest: Seq<char>) -> Route {
    match first_slash(rest, 0) {
        None => Route::Unknown,
        Some(at) => match (session_number(rest.take(at)), endpoint_of(method, rest.skip(at + 1))) {
            (Some(number), Some(endpoint)) => Route::Session(Some(number), endpoint),
            _ => Route::Unknown,
        },
    }
}

pub open spec fn route_of(method: Seq<char>, path: Seq<char>) -> Route {
    if path == "/debug"@ {
        if method == "GET"@ {
            Route::Index
        } else {
            Route::Unknown
        }
    } else if path == "/debug/tabs"@ {
        if method == "GET"@ {
            Route::Tabs
        } else {
            Route::Unknown
        }
    } else if "/debug/tabs/"@.is_prefix_of(path) {
        tab_route(method, path.skip("/debug/tabs/"@.len() as int))
    } else if "/debug/"@.is_prefix_of(path) {
        match endpoint_of(method, path.skip("/debug/"@.len() as int)) {
            Some(endpoint) => Route::Session(None, endpoint),
            None => Route::Unknown,
        }
    } else {
        Route::Unknown
    }
}

/// What follows a prefix of a text.
fn after_prefix(chars: &[char], prefix: &str) -> (r: Option<String>)
    ensures
        match r {
            Some(rest) => prefix@.is_prefix_of(chars@) && rest@ == chars@.skip(
                prefix@.len() as int,
            ),
            None => !prefix@.is_prefix_of(chars@),
        },
{
    let wanted = chars_of(prefix);
    if wanted.len() > chars.len() {
        return None;
    }
    let mut i: usize = 0;
    while i < wanted.len()
        invariant
            i <= wanted@.len() <= chars@.len(),
            wanted@ == prefix@,
            forall|k: int| 0 <= k < i ==> wanted@[k] == chars@[k],
        decreases wanted@.len() - i,
    {
        if wanted[i] != chars[i] {
            assert(chars@.subrange(0, prefix@.len() as int)[i as int] != prefix@[i as int]);
            return None;
        }
        i += 1;
    }
    assert(chars@.subrange(0, prefix@.len() as int) =~= prefix@);
    let rest = vstd::slice::slice_subrange(chars, wanted.len(), chars.len());
    assert(rest@ =~= chars@.skip(prefix@.len() as int));
    Some(text_of(rest))
}

fn parse_tab_route(method: &str, rest: &str) -> (route: Route)
    ensures
        route == tab_route(method@, rest@),
{
    let chars = chars_of(rest);
    let mut at: usize = 0;
    while at < chars.len() && chars[at] != '/'
        invariant
            at <= chars@.len(),
            first_slash(chars@, at as int) == first_slash(chars@, 0),
        decreases chars@.len() - at,
    {
        at += 1;
    }
    if at == chars.len() {
        return Route::Unknown;
    }
    let number = parse_session_number(vstd::slice::slice_subrange(chars.as_slice(), 0, at));
    assert(chars@.subrange(0, at as int) =~= chars@.take(at as int));
    let tail = vstd::slice::slice_subrange(chars.as_slice(), at + 1, chars.len());
    assert(tail@ =~= chars@.skip(at + 1));
    let name = text_of(tail);
    match number {
        Some(number) => match find_endpoint(method, name.as_str()) {
            Some(endpoint) => Route::Session(Some(number), endpoint),
            None => Route::Unknown,
        },
        None => Route::Unknown,
    }
}

pub fn parse_route(method: &str, path: &str) -> (route: Route)
    ensures
        route == route_of(method@, path@),
{
    if same_text(path, "/debug") {
        return if same_text(method, "GET") {
            Route::Index
        } else {
            Route::Unknown
        };
    }
    if same_text(path, "/debug/tabs") {
        return if same_text(method, "GET") {
            Route::Tabs
        } else {
            Route::Unknown
        };
    }
    let chars = chars_of(path);
    if let Some(rest) = after_prefix(chars.as_slice(), "/debug/tabs/") {
        return parse_tab_route(method, rest.as_str());
    }
    if let Some(name) = after_prefix(chars.as_slice(), "/debug/") {
        return match find_endpoint(method, name.as_str()) {
            Some(endpoint) => Route::Session(None, endpoint),
            None => Route::Unknown,
        };
    }
    Route::Unknown
}

/// The text before the first question mark.
pub open spec fn before_query(url: Seq<char>) -> Seq<char>
    decreases url.len(),
{
    if url.len() == 0 || url[0] == '?' {
        Seq::empty()
    } else {
        seq![url[0]] + before_query(url.skip(1))
    }
}

/// The path of a URL, without its query.
pub fn request_path(url: &str) -> (path: String)
    ensures
        path@ == before_query(url@),
{
    let chars = chars_of(url);
    let mut end: usize = 0;
    assert(chars@.skip(0) =~= chars@);
    assert(chars@.take(0) + before_query(chars@) =~= before_query(chars@));
    while end < chars.len() && chars[end] != '?'
        invariant
            end <= chars@.len(),
            chars@.take(end as int) + before_query(chars@.skip(end as int)) == before_query(
                chars@,
            ),
        decreases chars@.len() - end,
    {
        let ghost rest = chars@.skip(end as int);
        assert(rest.skip(1) =~= chars@.skip(end + 1));
        assert(chars@.take(end + 1) + before_query(rest.skip(1)) =~= chars@.take(end as int) + (
        seq![rest[0]] + before_query(rest.skip(1))));
        end += 1;
    }
    let path = vstd::slice::slice_subrange(chars.as_slice(), 0, end);
    assert(path@ =~= chars@.take(end as int));
    assert(chars@.take(end as int) + Seq::<char>::empty() =~= path@);
    text_of(path)
}

/// The smallest of some numbers.
pub open spec fn smallest(numbers: Seq<u64>) -> Option<u64>
    decreases numbers.len(),
{
    if numbers.len() == 0 {
        None
    } else {
        match smallest(numbers.drop_last()) {
            Some(n) if n <= numbers.last() => Some(n),
            _ => Some(numbers.last()),
        }
    }
}

/// The live session that a route means: the one with its number, or, where it
/// names none, the one with the lowest.
pub open spec fn session_of(number: Option<u64>, live: Seq<u64>) -> Option<u64> {
    match number {
        Some(n) => if live.contains(n) {
            Some(n)
        } else {
            None
        },
        None => smallest(live),
    }
}

pub fn resolve_session(number: Option<u64>, live: &[u64]) -> (r: Option<u64>)
    ensures
        r == session_of(number, live@),
{
    let mut i: usize = 0;
    let mut first: Option<u64> = None;
    assert(live@.take(0) =~= Seq::<u64>::empty());
    while i < live.len()
        invariant
            i <= live@.len(),
            first == smallest(live@.take(i as int)),
            number matches Some(n) ==> forall|k: int| 0 <= k < i ==> live@[k] != n,
        decreases live@.len() - i,
    {
        if let Some(n) = number {
            if live[i] == n {
                assert(live@[i as int] == n);
                return Some(n);
            }
        }
        assert(live@.take(i + 1).drop_last() =~= live@.take(i as int));
        first = match first {
            Some(n) if n <= live[i] => Some(n),
            _ => Some(live[i]),
        };
        i += 1;
    }
    assert(live@.take(live@.len() as int) =~= live@);
    match number {
        Some(_) => None,
        None => first,
    }
}

/// Law: a request reaches a live session or none at all, so that nothing is
/// ever written to a tab that was closed; and while a session lives, a request
/// that names none reaches the one with the lowest number.
pub proof fn law_only_live_sessions_are_reached(number: Option<u64>, live: Seq<u64>)
    ensures
        session_of(number, live) matches Some(n) ==> live.contains(n),
        number is None && live.len() > 0 ==> session_of(number, live) is Some,
        number is None ==> (session_of(number, live) matches Some(n) ==> forall|k: int|
            0 <= k < live.len() ==> n <= #[trigger] live[k]),
{
    lemma_smallest(live);
}

proof fn lemma_smallest(live: Seq<u64>)
    ensures
        smallest(live) is None <==> live.len() == 0,
        smallest(live) matches Some(n) ==> live.contains(n) && forall|k: int|
            0 <= k < live.len() ==> n <= #[trigger] live[k],
    decreases live.len(),
{
    if live.len() > 0 {
        let front = live.drop_last();
        lemma_smallest(front);
        let n = smallest(live)->0;
        if n == live.last() {
            assert(live[live.len() - 1] == n);
        } else {
            let k = choose|k: int| 0 <= k < front.len() && front[k] == n;
            assert(live[k] == n);
        }
        assert forall|k: int| 0 <= k < live.len() implies n <= #[trigger] live[k] by {
            if k < live.len() - 1 {
                assert(front[k] == live[k]);
            }
        }
    }
}

/// The endpoints of one session, one in a line.
pub open spec fn session_endpoints(number: u64) -> Seq<char> {
    let base = "/debug/tabs/"@ + ascii_text(decimal(number as nat));
    "GET "@ + base + "/state\n"@ + "GET "@ + base + "/screen\n"@ + "POST "@ + base + "/note\n"@
        + "POST "@ + base + "/input\n"@ + "POST "@ + base + "/replace-line\n"@
}

pub open spec fn sessions_text(live: Seq<u64>) -> Seq<char>
    decreases live.len(),
{
    if live.len() == 0 {
        Seq::empty()
    } else {
        sessions_text(live.drop_last()) + session_endpoints(live.last())
    }
}

fn push_endpoint(out: &mut Vec<char>, method: &str, number: u64, name: &str)
    ensures
        final(out)@ == old(out)@ + (method@ + ("/debug/tabs/"@ + ascii_text(
            decimal(number as nat),
        )) + name@),
{
    push_text(out, method);
    push_text(out, "/debug/tabs/");
    push_decimal_chars(out, number);
    push_text(out, name);
    assert(out@ =~= old(out)@ + (method@ + ("/debug/tabs/"@ + ascii_text(decimal(number as nat)))
        + name@));
}

fn list_sessions(live: &[u64]) -> (text: String)
    ensures
        text@ == sessions_text(live@),
{
    let mut out: Vec<char> = Vec::new();
    let mut i: usize = 0;
    assert(live@.take(0) =~= Seq::<u64>::empty());
    while i < live.len()
        invariant
            i <= live@.len(),
            out@ == sessions_text(live@.take(i as int)),
        decreases live@.len() - i,
    {
        let ghost before = out@;
        let number: u64 = live[i];
        push_endpoint(&mut out, "GET ", number, "/state\n");
        push_endpoint(&mut out, "GET ", number, "/screen\n");
        push_endpoint(&mut out, "POST ", number, "/note\n");
        push_endpoint(&mut out, "POST ", number, "/input\n");
        push_endpoint(&mut out, "POST ", number, "/replace-line\n");
        assert(out@ =~= before + session_endpoints(number));
        assert(live@.take(i + 1).drop_last() =~= live@.take(i as int));
        i += 1;
    }
    assert(live@.take(live@.len() as int) =~= live@);
    text_of(out.as_slice())
}

pub enum Destination {
    Answered(Reply),
    Session(u64, Endpoint),
}

pub ghost enum DestinationView {
    Answered(ReplyView),
    Session(u64, Endpoint),
}

impl View for Destination {
    type V = DestinationView;

    open spec fn view(&self) -> DestinationView {
        match self {
            Destination::Answered(reply) => DestinationView::Answered(reply@),
            Destination::Session(number, endpoint) => DestinationView::Session(*number, *endpoint),
        }
    }
}

pub open spec fn index_text() -> Seq<char> {
    "available endpoints:\nGET /debug/state\nGET /debug/screen\nPOST /debug/input (raw body)\nPOST /debug/replace-line (text body)\nPOST /debug/note (text body)\n"@
}

/// Where a request leads: to an answer of the server itself, or to a session.
pub open spec fn destination_of(method: Seq<char>, path: Seq<char>, live: Seq<u64>) ->
    DestinationView {
    match route_of(method, path) {
        Route::Index => DestinationView::Answered(text_reply(200, index_text())),
        Route::Tabs => DestinationView::Answered(text_reply(200, sessions_text(live))),
        Route::Unknown => DestinationView::Answered(text_reply(404, "not found\n"@)),
        Route::Session(number, endpoint) => match session_of(number, live) {
            Some(session) => DestinationView::Session(session, endpoint),
            None => DestinationView::Answered(text_reply(404, "not found\n"@)),
        },
    }
}

pub fn find_destination(method: &str, path: &str, live: &[u64]) -> (r: Destination)
    ensures
        r@ == destination_of(method@, path@, live@),
{
    match parse_route(method, path) {
        Route::Index => Destination::Answered(
            text_response(
                200,
                "available endpoints:\nGET /debug/state\nGET /debug/screen\nPOST /debug/input (raw body)\nPOST /debug/replace-line (text body)\nPOST /debug/note (text body)\n",
            ),
        ),
        Route::Tabs => {
            let text = list_sessions(live);
            Destination::Answered(text_response(200, text.as_str()))
        },
        Route::Unknown => Destination::Answered(text_response(404, "not found\n")),
        Route::Session(number, endpoint) => match resolve_session(number, live) {
            Some(session) => Destination::Session(session, endpoint),
            None => Destination::Answered(text_response(404, "not found\n")),
        },
    }
}

// ---------------------------------------------------------------------------
// The state of a session
// ---------------------------------------------------------------------------

#[derive(Clone, Copy, Debug, PartialEq, Eq, Structural)]
pub struct DebugCounters {
    pub bytes_from_pty: u64,
    pub bytes_to_pty: u64,
    pub key_events: u64,
    pub injected_events: u64,
    pub resize_events: u64,
    pub http_requests: u64,
}

/// What the server shows of a session.
pub struct DebugState {
    pub listening_addr: Option<String>,
    pub shell: String,
    pub status: String,
    pub note: Option<String>,
    pub grid_size: GridSize,
    pub cursor_row: usize,
    pub cursor_col: usize,
    pub screen_lines: Vec<String>,
    pub counters: DebugCounters,
    pub last_error: Option<String>,
}

pub open spec fn line_views(lines: Seq<String>) -> Seq<Seq<char>> {
    lines.map_values(|line: String| line@)
}

/// The mathematical value of a [`DebugState`].
pub ghost struct StateView {
    pub listening_addr: Option<Seq<char>>,
    pub shell: Seq<char>,
    pub status: Seq<char>,
    pub note: Option<Seq<char>>,
    pub grid_size: GridSize,
    pub cursor: (usize, usize),
    pub screen_lines: Seq<Seq<char>>,
    pub counters: DebugCounters,
    pub last_error: Option<Seq<char>>,
}

impl View for DebugState {
    type V = StateView;

    open spec fn view(&self) -> StateView {
        StateView {
            listening_addr: text_view(self.listening_addr),
            shell: self.shell@,
            status: self.status@,
            note: text_view(self.note),
            grid_size: self.grid_size,
            cursor: (self.cursor_row, self.cursor_col),
            screen_lines: line_views(self.screen_lines@),
            counters: self.counters,
            last_error: text_view(self.last_error),
        }
    }
}

/// A counter that goes round at the end of its type.
pub open spec fn counted(counter: u64, n: int) -> u64 {
    ((counter + n) % 0x1_0000_0000_0000_0000) as u64
}

fn count(counter: u64, n: u64) -> (r: u64)
    ensures
        r == counted(counter, n as int),
{
    let room: u64 = u64::MAX - counter;
    if n <= room {
        counter + n
    } else {
        n - room - 1
    }
}

/// How writing to the shell ended.
pub enum WriteOutcome {
    Done,
    NoWriter,
    Failed(String),
}

/// Lines joined by line feeds.
pub open spec fn joined_lines(lines: Seq<Seq<char>>) -> Seq<char>
    decreases lines.len(),
{
    if lines.len() == 0 {
        Seq::empty()
    } else if lines.len() == 1 {
        lines[0]
    } else {
        joined_lines(lines.drop_last()) + seq!['\n'] + lines.last()
    }
}

pub open spec fn screen_dump(lines: Seq<Seq<char>>) -> Seq<char> {
    if lines.len() == 0 {
        "<empty screen>\n"@
    } else {
        joined_lines(lines).push('\n')
    }
}

/// The line that sums a session up.
pub open spec fn summary(state: StateView, uptime_secs: u64) -> Seq<char> {
    let addr = match state.listening_addr {
        Some(text) => text,
        None => "starting"@,
    };
    let c = state.counters;
    state.status + " | "@ + ascii_text(decimal(state.grid_size.cols as nat)) + "x"@ + ascii_text(
        decimal(state.grid_size.rows as nat),
    ) + " | in:"@ + ascii_text(decimal(c.bytes_from_pty as nat)) + " out:"@ + ascii_text(
        decimal(c.bytes_to_pty as nat),
    ) + " key:"@ + ascii_text(decimal(c.key_events as nat)) + " inj:"@ + ascii_text(
        decimal(c.injected_events as nat),
    ) + " req:"@ + ascii_text(decimal(c.http_requests as nat)) + " resize:"@ + ascii_text(
        decimal(c.resize_events as nat),
    ) + " up:"@ + ascii_text(decimal(uptime_secs as nat)) + "s dbg:"@ + addr
}

impl DebugState {
    pub fn new(shell: String, status: String, grid_size: GridSize) -> (state: DebugState)
        ensures
            state@ == (StateView {
                listening_addr: None,
                shell: shell@,
                status: status@,
                note: None,
                grid_size,
                cursor: (0, 0),
                screen_lines: Seq::empty(),
                counters: DebugCounters {
                    bytes_from_pty: 0,
                    bytes_to_pty: 0,
                    key_events: 0,
                    injected_events: 0,
                    resize_events: 0,
                    http_requests: 0,
                },
                last_error: None,
            }),
    {
        let state = DebugState {
            listening_addr: None,
            shell,
            status,
            note: None,
            grid_size,
            cursor_row: 0,
            cursor_col: 0,
            screen_lines: Vec::new(),
            counters: DebugCounters {
                bytes_from_pty: 0,
                bytes_to_pty: 0,
                key_events: 0,
                injected_events: 0,
                resize_events: 0,
                http_requests: 0,
            },
            last_error: None,
        };
        assert(state@.screen_lines =~= Seq::<Seq<char>>::empty());
        state
    }

    pub fn set_listening_addr(&mut self, addr: String)
        ensures
            final(self)@ == (StateView { listening_addr: Some(addr@), ..old(self)@ }),
    {
        self.listening_addr = Some(addr);
    }

    pub fn set_error(&mut self, error: String)
        ensures
            final(self)@ == (StateView { last_error: Some(error@), ..old(self)@ }),
    {
        self.last_error = Some(error);
    }

    pub fn set_note(&mut self, note: Option<String>)
        ensures
            final(self)@ == (StateView { note: text_view(note), ..old(self)@ }),
    {
        self.note = note;
    }

    pub fn note(&self) -> (note: Option<String>)
        ensures
            text_view(note) == self@.note,
    {
        match &self.note {
            Some(text) => Some(text.clone()),
            None => None,
        }
    }

    pub fn record_http_request(&mut self)
        ensures
            final(self)@ == (StateView {
                counters: DebugCounters {
                    http_requests: counted(old(self)@.counters.http_requests, 1),
                    ..old(self)@.counters
                },
                ..old(self)@
            }),
    {
        self.counters.http_requests = count(self.counters.http_requests, 1);
    }

    pub fn record_bytes_from_pty(&mut self, bytes: usize)
        ensures
            final(self)@ == (StateView {
                counters: DebugCounters {
                    bytes_from_pty: counted(old(self)@.counters.bytes_from_pty, bytes as int),
                    ..old(self)@.counters
                },
                ..old(self)@
            }),
    {
        self.counters.bytes_from_pty = count(self.counters.bytes_from_pty, bytes as u64);
    }

    /// Counts bytes written to the shell, and an injection where the debug
    /// server wrote them.
    pub fn record_bytes_to_pty(&mut self, bytes: usize, injected: bool)
        ensures
            final(self)@ == old(self)@.with_written(bytes as int, injected),
    {
        self.counters.bytes_to_pty = count(self.counters.bytes_to_pty, bytes as u64);
        if injected {
            self.counters.injected_events = count(self.counters.injected_events, 1);
        }
    }

    /// Counts input that was written to the shell, or keeps the error.
    pub fn record_input_write(&mut self, bytes: usize, outcome: WriteOutcome)
        ensures
            final(self)@ == match outcome {
                WriteOutcome::Done => old(self)@.with_written(bytes as int, false),
                WriteOutcome::NoWriter => old(self)@.with_error(
                    "write skipped because PTY writer is unavailable"@,
                ),
                WriteOutcome::Failed(error) => old(self)@.with_error(
                    "failed to write input: "@ + error@,
                ),
            },
    {
        match outcome {
            WriteOutcome::Done => self.record_bytes_to_pty(bytes, false),
            WriteOutcome::NoWriter => self.set_error(
                "write skipped because PTY writer is unavailable".to_owned(),
            ),
            WriteOutcome::Failed(error) => {
                let mut message: Vec<char> = Vec::new();
                push_text(&mut message, "failed to write input: ");
                push_text(&mut message, error.as_str());
                assert(message@ =~= "failed to write input: "@ + error@);
                self.set_error(text_of(message.as_slice()));
            },
        }
    }

    pub fn record_key_event(&mut self)
        ensures
            final(self)@ == (StateView {
                counters: DebugCounters {
                    key_events: counted(old(self)@.counters.key_events, 1),
                    ..old(self)@.counters
                },
                ..old(self)@
            }),
    {
        self.counters.key_events = count(self.counters.key_events, 1);
    }

    pub fn record_resize(&mut self)
        ensures
            final(self)@ == (StateView {
                counters: DebugCounters {
                    resize_events: counted(old(self)@.counters.resize_events, 1),
                    ..old(self)@.counters
                },
                ..old(self)@
            }),
    {
        self.counters.resize_events = count(self.counters.resize_events, 1);
    }

    pub fn update_screen_snapshot(
        &mut self,
        grid_size: GridSize,
        cursor_row: usize,
        cursor_col: usize,
        screen_lines: Vec<String>,
    )
        ensures
            final(self)@ == (StateView {
                grid_size,
                cursor: (cursor_row, cursor_col),
                screen_lines: line_views(screen_lines@),
                ..old(self)@
            }),
    {
        self.grid_size = grid_size;
        self.cursor_row = cursor_row;
        self.cursor_col = cursor_col;
        self.screen_lines = screen_lines;
    }

    pub fn status_summary(&self, uptime_secs: u64) -> (text: String)
        ensures
            text@ == summary(self@, uptime_secs),
    {
        let mut out: Vec<char> = Vec::new();
        push_text(&mut out, self.status.as_str());
        push_text(&mut out, " | ");
        push_decimal_chars(&mut out, self.grid_size.cols as u64);
        push_text(&mut out, "x");
        push_decimal_chars(&mut out, self.grid_size.rows as u64);
        push_text(&mut out, " | in:");
        push_decimal_chars(&mut out, self.counters.bytes_from_pty);
        push_text(&mut out, " out:");
        push_decimal_chars(&mut out, self.counters.bytes_to_pty);
        push_text(&mut out, " key:");
        push_decimal_chars(&mut out, self.counters.key_events);
        push_text(&mut out, " inj:");
        push_decimal_chars(&mut out, self.counters.injected_events);
        push_text(&mut out, " req:");
        push_decimal_chars(&mut out, self.counters.http_requests);
        push_text(&mut out, " resize:");
        push_decimal_chars(&mut out, self.counters.resize_events);
        push_text(&mut out, " up:");
        push_decimal_chars(&mut out, uptime_secs);
        push_text(&mut out, "s dbg:");
        match &self.listening_addr {
            Some(addr) => push_text(&mut out, addr.as_str()),
            None => push_text(&mut out, "starting"),
        }
        assert(out@ =~= summary(self@, uptime_secs));
        text_of(out.as_slice())
    }

    pub fn screen_text(&self) -> (text: String)
        ensures
            text@ == screen_dump(self@.screen_lines),
    {
        let ghost views = self@.screen_lines;
        if self.screen_lines.len() == 0 {
            return "<empty screen>\n".to_owned();
        }
        let mut out: Vec<char> = Vec::new();
        let mut i: usize = 0;
        assert(views.take(0) =~= Seq::<Seq<char>>::empty());
        while i < self.screen_lines.len()
            invariant
                i <= self.screen_lines@.len(),
                views == line_views(self.screen_lines@),
                out@ == joined_lines(views.take(i as int)),
            decreases self.screen_lines@.len() - i,
        {
            let ghost before = out@;
            if i > 0 {
                out.push('\n');
            }
            push_text(&mut out, self.screen_lines[i].as_str());
            proof {
                let taken = views.take(i + 1);
                assert(taken.drop_last() =~= views.take(i as int));
                assert(taken.last() == self.screen_lines@[i as int]@);
                if i == 0 {
                    assert(taken[0] == self.screen_lines@[0]@);
                    assert(before =~= Seq::<char>::empty());
                    assert(out@ =~= taken[0]);
                } else {
                    assert(out@ =~= before + seq!['\n'] + taken.last());
                }
            }
            i += 1;
        }
        assert(views.take(views.len() as int) =~= views);
        out.push('\n');
        text_of(out.as_slice())
    }
}

impl StateView {
    pub open spec fn with_error(self, error: Seq<char>) -> StateView {
        StateView { last_error: Some(error), ..self }
    }

    pub open spec fn with_written(self, bytes: int, injected: bool) -> StateView {
        StateView {
            counters: DebugCounters {
                bytes_to_pty: counted(self.counters.bytes_to_pty, bytes),
                injected_events: if injected {
                    counted(self.counters.injected_events, 1)
                } else {
                    self.counters.injected_events
                },
                ..self.counters
            },
            ..self
        }
    }
}

// ---------------------------------------------------------------------------
// What a request does to a session
// ---------------------------------------------------------------------------

/// The next thing to do for a request.
pub enum DebugAction {
    /// Answer it.
    Reply(Reply),
    /// Answer it with the state as JSON.
    SendState,
    /// Read its body, up to the limit, and ask again.
    ReadBody(Endpoint),
    /// Write these bytes to the shell, and ask again.
    Write(Endpoint, Vec<u8>),
}

pub ghost enum DebugActionView {
    Reply(ReplyView),
    SendState,
    ReadBody(Endpoint),
    Write(Endpoint, Seq<u8>),
}

impl View for DebugAction {
    type V = DebugActionView;

    open spec fn view(&self) -> DebugActionView {
        match self {
            DebugAction::Reply(reply) => DebugActionView::Reply(reply@),
            DebugAction::SendState => DebugActionView::SendState,
            DebugAction::ReadBody(endpoint) => DebugActionView::ReadBody(*endpoint),
            DebugAction::Write(endpoint, bytes) => DebugActionView::Write(*endpoint, bytes@),
        }
    }
}

/// What happens first at an endpoint.
pub open spec fn first_action(endpoint: Endpoint, has_writer: bool, state: StateView) ->
    DebugActionView {
    match endpoint {
        Endpoint::State => DebugActionView::SendState,
        Endpoint::Screen => DebugActionView::Reply(
            text_reply(200, screen_dump(state.screen_lines)),
        ),
        Endpoint::Note => DebugActionView::ReadBody(endpoint),
        _ => if has_writer {
            DebugActionView::ReadBody(endpoint)
        } else {
            DebugActionView::Reply(text_reply(503, "pty writer unavailable\n"@))
        },
    }
}

pub fn handle_debug_request(endpoint: Endpoint, has_writer: bool, state: &DebugState) -> (action:
    DebugAction)
    ensures
        action@ == first_action(endpoint, has_writer, state@),
{
    match endpoint {
        Endpoint::State => DebugAction::SendState,
        Endpoint::Screen => {
            let text = state.screen_text();
            DebugAction::Reply(text_response(200, text.as_str()))
        },
        Endpoint::Note => DebugAction::ReadBody(endpoint),
        Endpoint::Input => if has_writer {
            DebugAction::ReadBody(endpoint)
        } else {
            DebugAction::Reply(text_response(503, "pty writer unavailable\n"))
        },
        Endpoint::ReplaceLine => if has_writer {
            DebugAction::ReadBody(endpoint)
        } else {
            DebugAction::Reply(text_response(503, "pty writer unavailable\n"))
        },
    }
}

/// What the body of a request does: the next action, and the state after it.
pub open spec fn body_action(endpoint: Endpoint, body: Seq<u8>, state: StateView) -> (
    DebugActionView,
    StateView,
) {
    match endpoint {
        Endpoint::Note => if !valid_utf8(body) {
            (
                DebugActionView::Reply(text_reply(400, "invalid note body\n"@)),
                state.with_error(
                    "failed to read note body: stream did not contain valid UTF-8"@,
                ),
            )
        } else if trimmed(decode_utf8(body)).len() == 0 {
            (
                DebugActionView::Reply(text_reply(200, "note cleared\n"@)),
                StateView { note: None, ..state },
            )
        } else {
            (
                DebugActionView::Reply(text_reply(200, "note set\n"@)),
                StateView { note: Some(trimmed(decode_utf8(body))), ..state },
            )
        },
        Endpoint::Input => if body.len() == 0 {
            (DebugActionView::Reply(text_reply(400, "input body is empty\n"@)), state)
        } else {
            (DebugActionView::Write(endpoint, body), state)
        },
        Endpoint::ReplaceLine => (
            DebugActionView::Write(endpoint, seq![0x15u8] + body),
            state,
        ),
        _ => (DebugActionView::Reply(text_reply(404, "not found\n"@)), state),
    }
}

/// Goes on with a request whose body was read.
pub fn handle_debug_body(endpoint: Endpoint, body: Vec<u8>, state: &mut DebugState) -> (action:
    DebugAction)
    ensures
        (action@, final(state)@) == body_action(endpoint, body@, old(state)@),
{
    match endpoint {
        Endpoint::Note => match text_from_utf8(body.as_slice()) {
            None => {
                state.set_error(
                    "failed to read note body: stream did not contain valid UTF-8".to_owned(),
                );
                DebugAction::Reply(text_response(400, "invalid note body\n"))
            },
            Some(text) => {
                proof {
                    vstd::utf8::encode_utf8_decode_utf8(text@);
                }
                let note = trim_text(text);
                if note.as_str().is_empty() {
                    state.set_note(None);
                    DebugAction::Reply(text_response(200, "note cleared\n"))
                } else {
                    state.set_note(Some(note));
                    DebugAction::Reply(text_response(200, "note set\n"))
                }
            },
        },
        Endpoint::Input => if body.len() == 0 {
            DebugAction::Reply(text_response(400, "input body is empty\n"))
        } else {
            DebugAction::Write(endpoint, body)
        },
        Endpoint::ReplaceLine => {
            let mut payload: Vec<u8> = Vec::new();
            payload.push(0x15);
            payload.extend_from_slice(body.as_slice());
            assert(payload@ =~= seq![0x15u8] + body@);
            DebugAction::Write(endpoint, payload)
        },
        Endpoint::State => DebugAction::Reply(text_response(404, "not found\n")),
        Endpoint::Screen => DebugAction::Reply(text_response(404, "not found\n")),
    }
}

/// The name of what a body is for.
pub open spec fn body_name(endpoint: Endpoint) -> Seq<char> {
    match endpoint {
        Endpoint::Note => "note"@,
        Endpoint::ReplaceLine => "replace-line"@,
        _ => "input"@,
    }
}

fn body_label(endpoint: Endpoint) -> (name: &'static str)
    ensures
        name@ == body_name(endpoint),
{
    match endpoint {
        Endpoint::Note => "note",
        Endpoint::ReplaceLine => "replace-line",
        _ => "input",
    }
}

/// Answers a request whose body could not be read.
pub fn handle_debug_body_error(endpoint: Endpoint, error: &str, state: &mut DebugState) -> (reply:
    Reply)
    ensures
        reply@ == text_reply(400, "invalid "@ + body_name(endpoint) + " body\n"@),
        final(state)@ == old(state)@.with_error(
            "failed to read "@ + body_name(endpoint) + " body: "@ + error@,
        ),
{
    let mut message: Vec<char> = Vec::new();
    push_text(&mut message, "failed to read ");
    push_text(&mut message, body_label(endpoint));
    push_text(&mut message, " body: ");
    push_text(&mut message, error);
    assert(message@ =~= "failed to read "@ + body_name(endpoint) + " body: "@ + error@);
    state.set_error(text_of(message.as_slice()));
    let mut answer: Vec<char> = Vec::new();
    push_text(&mut answer, "invalid ");
    push_text(&mut answer, body_label(endpoint));
    push_text(&mut answer, " body\n");
    assert(answer@ =~= "invalid "@ + body_name(endpoint) + " body\n"@);
    let text = text_of(answer.as_slice());
    text_response(400, text.as_str())
}

/// Answers a request whose bytes were written to the shell, or were not.
pub fn handle_debug_write(
    endpoint: Endpoint,
    bytes: usize,
    error: Option<String>,
    state: &mut DebugState,
) -> (reply: Reply)
    ensures
        match error {
            None => {
                &&& reply@ == text_reply(
                    200,
                    if endpoint == Endpoint::ReplaceLine {
                        "input line replaced\n"@
                    } else {
                        "input injected\n"@
                    },
                )
                &&& final(state)@ == old(state)@.with_written(bytes as int, true)
            },
            Some(text) => {
                &&& reply@ == text_reply(500, "failed to write to pty\n"@)
                &&& final(state)@ == old(state)@.with_error(
                    "debug "@ + body_name(endpoint) + " write failed: "@ + text@,
                )
            },
        },
{
    match error {
        None => {
            state.record_bytes_to_pty(bytes, true);
            if endpoint == Endpoint::ReplaceLine {
                text_response(200, "input line replaced\n")
            } else {
                text_response(200, "input injected\n")
            }
        },
        Some(text) => {
            let mut message: Vec<char> = Vec::new();
            push_text(&mut message, "debug ");
            push_text(&mut message, body_label(endpoint));
            push_text(&mut message, " write failed: ");
            push_text(&mut message, text.as_str());
            assert(message@ =~= "debug "@ + body_name(endpoint) + " write failed: "@ + text@);
            state.set_error(text_of(message.as_slice()));
            text_response(500, "failed to write to pty\n")
        },
    }
}

/// Takes a request in: turned away, answered by the server itself, or led to a
/// session.
pub open spec fn admitted(
    head: RequestHead,
    config: DebugHttpConfig,
    method: Seq<char>,
    url: Seq<char>,
    live: Seq<u64>,
) -> DestinationView {
    match rejection(head, config) {
        Some(reply) => DestinationView::Answered(reply),
        None => destination_of(method, before_query(url), live),
    }
}

pub fn admit_debug_request(
    head: &RequestHead,
    config: &DebugHttpConfig,
    method: &str,
    url: &str,
    live: &[u64],
) -> (r: Destination)
    ensures
        r@ == admitted(*head, *config, method@, url@, live@),
{
    match reject_unauthorized(head, config) {
        Some(reply) => Destination::Answered(reply),
        None => {
            let path = request_path(url);
            find_destination(method, path.as_str(), live)
        },
    }
}

/// Law: a request without the token, or with a foreign host where only
/// loopback ones are allowed, reaches no session. So it reads no screen and
/// writes no byte to a shell.
pub proof fn law_strangers_reach_no_session(
    head: RequestHead,
    config: DebugHttpConfig,
    method: Seq<char>,
    url: Seq<char>,
    live: Seq<u64>,
)
    ensures
        admitted(head, config, method, url, live) is Session ==> head.token is Some
            && head.token->0@ == config.token_text(),
        admitted(head, config, method, url, live) is Session && !config.remote_allowed()
            ==> names_loopback(text_view(head.host), head.host_address_is_loopback),
        admitted(head, config, method, url, live) matches DestinationView::Session(number, _)
            ==> live.contains(number),
{
    law_only_token_holders_are_let_in(head, config);
    match route_of(method, before_query(url)) {
        Route::Session(number, _) => law_only_live_sessions_are_reached(number, live),
        _ => {},
    }
}

/// Law: only posted input and a replaced line lead to bytes for the shell;
/// these are the body of the request, for a line after the code that clears it.
pub proof fn law_only_input_is_written(endpoint: Endpoint, body: Seq<u8>, state: StateView)
    ensures
        match body_action(endpoint, body, state).0 {
            DebugActionView::Write(target, bytes) => {
                &&& target == endpoint
                &&& endpoint == Endpoint::Input ==> bytes == body && body.len() > 0
                &&& endpoint == Endpoint::ReplaceLine ==> bytes == seq![0x15u8] + body
                &&& endpoint == Endpoint::Input || endpoint == Endpoint::ReplaceLine
            },
            _ => true,
        },
{
}

proof fn lemma_decimal_digits(n: nat)
    ensures
        ascii_text(decimal(n)).len() > 0,
        all_digits(ascii_text(decimal(n))),
        digits_value(ascii_text(decimal(n))) == n,
        forall|i: int|
            0 <= i < ascii_text(decimal(n)).len() ==> #[trigger] ascii_text(decimal(n))[i] != '/',
    decreases n,
{
    let text = ascii_text(decimal(n));
    if n >= 10 {
        lemma_decimal_digits(n / 10);
        let front = ascii_text(decimal(n / 10));
        assert(text.drop_last() =~= front);
        assert forall|i: int| 0 <= i < text.len() implies '0' <= #[trigger] text[i] <= '9' by {
            if i < front.len() {
                assert(text[i] == front[i]);
            }
        }
    } else {
        assert(text.drop_last() =~= Seq::<char>::empty());
    }
    assert(text.last() as u32 == 0x30 + n % 10);
    assert(digits_value(text) == digits_value(text.drop_last()) * 10 + n % 10);
    if n >= 10 {
        assert((n / 10) * 10 + n % 10 == n);
    } else {
        assert(digits_value(text.drop_last()) == 0);
    }
}

proof fn lemma_first_slash(text: Seq<char>, from: int, at: int)
    requires
        0 <= from <= at < text.len(),
        text[at] == '/',
        forall|i: int| from <= i < at ==> #[trigger] text[i] != '/',
    ensures
        first_slash(text, from) == Some(at),
    decreases at - from,
{
    if from < at {
        assert(text[from] != '/');
        lemma_first_slash(text, from + 1, at);
    }
}

/// Law: the endpoints that the server lists for a session are those at which it
/// answers for this session.
pub proof fn law_listed_endpoints_are_served(number: u64, method: Seq<char>, name: Seq<char>)
    requires
        endpoint_of(method, name) is Some,
    ensures
        route_of(
            method,
            "/debug/tabs/"@ + ascii_text(decimal(number as nat)) + seq!['/'] + name,
        ) == Route::Session(Some(number), endpoint_of(method, name)->0),
{
    reveal_strlit("/debug");
    reveal_strlit("/debug/tabs");
    reveal_strlit("/debug/tabs/");
    let digits = ascii_text(decimal(number as nat));
    let path = "/debug/tabs/"@ + digits + seq!['/'] + name;
    let rest = path.skip("/debug/tabs/"@.len() as int);
    lemma_decimal_digits(number as nat);
    assert(path.len() > "/debug/tabs"@.len());
    assert("/debug/tabs/"@.is_prefix_of(path));
    assert(rest =~= digits + seq!['/'] + name);
    assert forall|i: int| 0 <= i < digits.len() implies #[trigger] rest[i] != '/' by {
        assert(rest[i] == digits[i]);
    }
    lemma_first_slash(rest, 0, digits.len() as int);
    assert(rest.take(digits.len() as int) =~= digits);
    assert(rest.skip(digits.len() as int + 1) =~= name);
}

// ---------------------------------------------------------------------------
// Laws
// ---------------------------------------------------------------------------

/// Law: a token that was given is the one to carry, without the white space around
/// it; where there is nothing else in it, or none was given, the random bytes make
/// one, in hexadecimal.
pub proof fn law_which_token_is_asked_for(given: Seq<char>, random: Seq<u8>)
    requires
        random.len() > 0,
    ensures
        chosen_token(None, Some(random)) == Some(hex_text(random)),
        chosen_token(None, None) is None,
        (exists|i: int| 0 <= i < given.len() && !whitespace_char(#[trigger] given[i]))
            ==> chosen_token(Some(given), Some(random)) == Some(trimmed(given)) && chosen_token(
            Some(given),
            None,
        ) == Some(trimmed(given)),
        (forall|i: int| 0 <= i < given.len() ==> whitespace_char(#[trigger] given[i]))
            ==> chosen_token(Some(given), Some(random)) == Some(hex_text(random)) && chosen_token(
            Some(given),
            None,
        ) is None,
{
    lemma_trims_to_nothing(given);
}

/// Law: who is turned away, and how: 403 for a foreign host, 401 without the token,
/// 413 for too long a body.
pub proof fn law_how_strangers_are_answered(head: RequestHead, config: DebugHttpConfig)
    ensures
        ({
            let local = config.remote_allowed() || names_loopback(
                text_view(head.host),
                head.host_address_is_loopback,
            );
            let known = head.token is Some && (head.token->0)@ == config.token_text();
            let long = head.body_length is Some && head.body_length->0 > 1048576;
            &&& !local ==> rejection(head, config) is Some && (rejection(head, config)->0).status
                == 403
            &&& local && !known ==> rejection(head, config) is Some && (rejection(
                head,
                config,
            )->0).status == 401
            &&& local && known && long ==> rejection(head, config) is Some && (rejection(
                head,
                config,
            )->0).status == 413
            &&& local && known && !long ==> rejection(head, config) is None
        }),
{
}

/// Whether a text is the name or the address of a host: without white space and
/// brackets around it.
pub open spec fn is_bare_host(name: Seq<char>) -> bool {
    &&& name.len() > 0
    &&& !whitespace_char(name[0]) && !whitespace_char(name.last())
    &&& name[0] != '[' && name.last() != ']'
}

proof fn lemma_trimmed_already(text: Seq<char>)
    requires
        text.len() > 0,
        !whitespace_char(text[0]),
        !whitespace_char(text.last()),
    ensures
        trimmed(text) == text,
{
}

proof fn lemma_bare(name: Seq<char>)
    requires
        is_bare_host(name),
    ensures
        without_closing(without_opening(name)) == name,
        without_closing(without_opening(seq!['['] + name + seq![']'])) == name,
{
    let framed = seq!['['] + name + seq![']'];
    assert(framed.skip(1) =~= name + seq![']']);
    assert((name + seq![']']).drop_last() =~= name);
    assert((name + seq![']'])[0] == name[0]);
    assert(without_opening(framed) == without_opening(name + seq![']']));
    assert(without_opening(name + seq![']']) == name + seq![']']);
    assert((name + seq![']']).last() == ']');
    assert(without_closing(name + seq![']']) == without_closing(name));
}

proof fn lemma_with_port(front: Seq<char>, port: Seq<char>)
    requires
        all_digits(port),
    ensures
        without_port(front + seq![':'] + port) == front,
{
    let all = front + seq![':'] + port;
    let at = front.len() as int;
    assert(all[at] == ':');
    assert forall|k: int| at < k < all.len() implies #[trigger] all[k] != ':' by {
        assert(all[k] == port[k - at - 1]);
        assert('0' <= port[k - at - 1] <= '9');
    }
    lemma_last_colon(all, at);
    assert(all.skip(at + 1) =~= port);
    assert(all.take(at) =~= front);
}

/// Law: the name in a header is what stands before the port; the brackets around
/// an address are left out. So `localhost`, in any case of its letters, with and
/// without a port, names this machine; a request without the header never does.
pub proof fn law_hosts(name: Seq<char>, port: Seq<char>, address_is_loopback: bool)
    requires
        is_bare_host(name),
        port.len() > 0,
        all_digits(port),
    ensures
        name_in_host(name + seq![':'] + port) == name,
        name_in_host(seq!['['] + name + seq![']'] + seq![':'] + port) == name,
        (forall|i: int| 0 <= i < name.len() ==> #[trigger] name[i] != ':') ==> name_in_host(name)
            == name,
        ascii_lower_text(name) == "localhost"@ ==> names_loopback(
            Some(name + seq![':'] + port),
            false,
        ),
        ascii_lower_text(name) != "localhost"@ ==> !names_loopback(
            Some(name + seq![':'] + port),
            false,
        ),
        names_loopback(Some(name), true),
        !names_loopback(None, address_is_loopback),
{
    let last = port.last();
    assert('0' <= port[port.len() - 1] <= '9');
    assert(!whitespace_char(last));
    let with_port = name + seq![':'] + port;
    assert(with_port[0] == name[0] && with_port.last() == last);
    lemma_trimmed_already(with_port);
    lemma_with_port(name, port);
    lemma_bare(name);
    let framed = seq!['['] + name + seq![']'];
    let framed_port = framed + seq![':'] + port;
    assert(framed_port[0] == '[' && framed_port.last() == last);
    assert(seq!['['] + name + seq![']'] + seq![':'] + port =~= framed_port);
    lemma_trimmed_already(framed_port);
    lemma_with_port(framed, port);
    if forall|i: int| 0 <= i < name.len() ==> #[trigger] name[i] != ':' {
        lemma_trimmed_already(name);
        lemma_no_colon(name);
    }
    reveal_strlit("localhost");
    assert(ascii_lower_text("localhost"@) =~= "localhost"@);
}

/// Law: where the server listens: at the address that is asked for, where that is
/// a loopback one or others are allowed; nowhere, where it is neither; and in the
/// default range where none is asked for.
pub proof fn law_where_to_listen(addr: Seq<char>, asked_is_loopback: bool, allow_remote: bool)
    ensures
        bind_plan(None, asked_is_loopback, allow_remote) == BindPlanView::DefaultRange,
        (exists|i: int| 0 <= i < addr.len() && !whitespace_char(#[trigger] addr[i])) ==> {
            let plan = bind_plan(Some(addr), asked_is_loopback, allow_remote);
            &&& asked_is_loopback || allow_remote ==> plan == BindPlanView::At(addr)
            &&& !asked_is_loopback && !allow_remote ==> plan is Refuse
        },
        (forall|i: int| 0 <= i < addr.len() ==> whitespace_char(#[trigger] addr[i])) ==> bind_plan(
            Some(addr),
            asked_is_loopback,
            allow_remote,
        ) == BindPlanView::DefaultRange,
{
    lemma_trims_to_nothing(addr);
}

proof fn lemma_route_names()
    ensures
        "/debug/"@.len() == 7,
        "/debug/tabs/"@.len() == 12,
        "/debug"@.len() == 6,
        "/debug/tabs"@.len() == 11,
        "GET"@ != "POST"@,
        "state"@.len() == 5 && "screen"@.len() == 6 && "note"@.len() == 4 && "input"@.len() == 5
            && "replace-line"@.len() == 12,
        "state"@[0] == 's' && "screen"@[0] == 's' && "note"@[0] == 'n' && "input"@[0] == 'i'
            && "replace-line"@[0] == 'r',
        "/debug/tabs/"@[7] == 't',
        "/debug/tabs"@[7] == 't',
{
    reveal_strlit("/debug/");
    reveal_strlit("/debug/tabs/");
    reveal_strlit("/debug");
    reveal_strlit("/debug/tabs");
    reveal_strlit("GET");
    reveal_strlit("POST");
    reveal_strlit("state");
    reveal_strlit("screen");
    reveal_strlit("note");
    reveal_strlit("input");
    reveal_strlit("replace-line");
    assert("GET"@.len() == 3 && "POST"@.len() == 4);
}

proof fn lemma_session_route(method: Seq<char>, name: Seq<char>)
    requires
        name == "state"@ || name == "screen"@ || name == "note"@ || name == "input"@ || name
            == "replace-line"@,
    ensures
        route_of(method, "/debug/"@ + name) == match endpoint_of(method, name) {
            Some(endpoint) => Route::Session(None, endpoint),
            None => Route::Unknown,
        },
{
    lemma_route_names();
    let path = "/debug/"@ + name;
    assert(path.len() == 7 + name.len());
    assert(path[7] == name[0]);
    assert("/debug/"@.is_prefix_of(path)) by {
        assert(path.subrange(0, 7) =~= "/debug/"@);
    }
    if "/debug/tabs/"@.is_prefix_of(path) {
        assert(path.subrange(0, 12)[7] == path[7]);
    }
    assert(path != "/debug"@);
    assert(path != "/debug/tabs"@);
    assert(path.skip(7) =~= name);
}

/// Law: the endpoints of the server. The state and the screen are read with GET; a
/// note, input and a new line are sent with POST; with the other method each is
/// unknown.
pub proof fn law_endpoints()
    ensures
        route_of("GET"@, "/debug"@) == Route::Index,
        route_of("GET"@, "/debug/tabs"@) == Route::Tabs,
        route_of("GET"@, "/debug/"@ + "state"@) == Route::Session(None, Endpoint::State),
        route_of("GET"@, "/debug/"@ + "screen"@) == Route::Session(None, Endpoint::Screen),
        route_of("POST"@, "/debug/"@ + "note"@) == Route::Session(None, Endpoint::Note),
        route_of("POST"@, "/debug/"@ + "input"@) == Route::Session(None, Endpoint::Input),
        route_of("POST"@, "/debug/"@ + "replace-line"@) == Route::Session(
            None,
            Endpoint::ReplaceLine,
        ),
        route_of("POST"@, "/debug"@) == Route::Unknown,
        route_of("POST"@, "/debug/"@ + "state"@) == Route::Unknown,
        route_of("POST"@, "/debug/"@ + "screen"@) == Route::Unknown,
        route_of("GET"@, "/debug/"@ + "note"@) == Route::Unknown,
        route_of("GET"@, "/debug/"@ + "input"@) == Route::Unknown,
        route_of("GET"@, "/debug/"@ + "replace-line"@) == Route::Unknown,
{
    lemma_route_names();
    lemma_session_route("GET"@, "state"@);
    lemma_session_route("GET"@, "screen"@);
    lemma_session_route("GET"@, "note"@);
    lemma_session_route("GET"@, "input"@);
    lemma_session_route("GET"@, "replace-line"@);
    lemma_session_route("POST"@, "state"@);
    lemma_session_route("POST"@, "screen"@);
    lemma_session_route("POST"@, "note"@);
    lemma_session_route("POST"@, "input"@);
    lemma_session_route("POST"@, "replace-line"@);
}

/// Law: what is behind the question mark of a URL does not lead anywhere.
pub proof fn law_queries_are_left_out(path: Seq<char>, query: Seq<char>)
    requires
        !path.contains('?'),
    ensures
        before_query(path) == path,
        before_query(path + seq!['?'] + query) == path,
    decreases path.len(),
{
    let url = path + seq!['?'] + query;
    if path.len() == 0 {
        assert(url[0] == '?');
        assert(path =~= Seq::<char>::empty());
    } else {
        let rest = path.skip(1);
        assert(path.contains(path[0]));
        assert forall|i: int| 0 <= i < rest.len() implies rest[i] != '?' by {
            assert(path.contains(path[i + 1]));
        }
        law_queries_are_left_out(rest, query);
        assert(url.skip(1) =~= rest + seq!['?'] + query);
        assert(url[0] == path[0]);
        assert(seq![path[0]] + rest =~= path);
    }
}

/// Law: a header is found by its name in any case of its letters, and the first
/// one of that name counts.
pub proof fn law_headers(front: Seq<HttpHeader>, header: HttpHeader, rest: Seq<HttpHeader>, name: Seq<char>)
    requires
        forall|i: int|
            0 <= i < front.len() ==> ascii_lower_text((#[trigger] front[i]).field@)
                != ascii_lower_text(name),
    ensures
        named_header(front, name) is None,
        ascii_lower_text(header.field@) == ascii_lower_text(name) ==> named_header(
            front + seq![header] + rest,
            name,
        ) == Some(header.value@),
    decreases front.len(),
{
    let all = front + seq![header] + rest;
    if front.len() == 0 {
        assert(all[0] == header);
    } else {
        let less = front.skip(1);
        assert(ascii_lower_text(front[0].field@) != ascii_lower_text(name));
        assert forall|i: int| 0 <= i < less.len() implies ascii_lower_text(
            (#[trigger] less[i]).field@,
        ) != ascii_lower_text(name) by {
            assert(less[i] == front[i + 1]);
        }
        law_headers(less, header, rest, name);
        assert(all.skip(1) =~= less + seq![header] + rest);
        assert(all[0] == front[0]);
    }
}

/// Law: the screen is shown line by line, each with a line feed behind it.
pub proof fn law_the_screen_is_shown_line_by_line(lines: Seq<Seq<char>>, line: Seq<char>)
    ensures
        screen_dump(seq![line]) == line + seq!['\n'],
        lines.len() > 0 ==> screen_dump(lines.push(line)) == screen_dump(lines) + line + seq!['\n'],
        screen_dump(Seq::empty()) == "<empty screen>\n"@,
{
    assert(line.push('\n') =~= line + seq!['\n']);
    if lines.len() > 0 {
        let all = lines.push(line);
        assert(all.drop_last() =~= lines);
        assert(screen_dump(all) =~= screen_dump(lines) + line + seq!['\n']);
    }
}

/// Law: a counter counts as long as its type does.
pub proof fn law_counters_count(counter: u64, n: int)
    requires
        0 <= n,
        counter + n <= u64::MAX,
    ensures
        counted(counter, n) == counter + n,
{
}

/// Law: what is asked for first at an endpoint: the state and the screen are
/// answered at once; a note is read; input is read where there is a shell to write
/// to, and answered with 503 where there is none.
pub proof fn law_first_steps(has_writer: bool, state: StateView)
    ensures
        first_action(Endpoint::State, has_writer, state) == DebugActionView::SendState,
        first_action(Endpoint::Screen, has_writer, state) matches DebugActionView::Reply(reply)
            && reply.status == 200 && reply.body == screen_dump(state.screen_lines),
        first_action(Endpoint::Note, has_writer, state) == DebugActionView::ReadBody(
            Endpoint::Note,
        ),
        has_writer ==> first_action(Endpoint::Input, has_writer, state)
            == DebugActionView::ReadBody(Endpoint::Input) && first_action(
            Endpoint::ReplaceLine,
            has_writer,
            state,
        ) == DebugActionView::ReadBody(Endpoint::ReplaceLine),
        !has_writer ==> (first_action(Endpoint::Input, has_writer, state) matches
            DebugActionView::Reply(reply) && reply.status == 503),
        !has_writer ==> (first_action(Endpoint::ReplaceLine, has_writer, state) matches
            DebugActionView::Reply(reply) && reply.status == 503),
{
}

/// Law: posted bytes are written to the shell as they are; a posted line behind the
/// code that clears the line; a note is kept without the white space around it, and
/// one that is blank takes the note away.
pub proof fn law_what_a_body_does(body: Seq<u8>, state: StateView)
    ensures
        body.len() > 0 ==> body_action(Endpoint::Input, body, state) == (
            DebugActionView::Write(Endpoint::Input, body),
            state,
        ),
        body_action(Endpoint::ReplaceLine, body, state) == (
            DebugActionView::Write(Endpoint::ReplaceLine, seq![0x15u8] + body),
            state,
        ),
        valid_utf8(body) ==> {
            let note = trimmed(decode_utf8(body));
            body_action(Endpoint::Note, body, state).1.note == if note.len() == 0 {
                None
            } else {
                Some(note)
            }
        },
        !valid_utf8(body) ==> body_action(Endpoint::Note, body, state).1.note == state.note
            && body_action(Endpoint::Note, body, state).1.last_error is Some,
        body_action(Endpoint::Input, Seq::empty(), state).1 == state,
{
}

/// Law: a variable says yes by the number one, or by the words `true` and `yes` in
/// any case of their letters; white space around it does not matter.
pub proof fn law_saying_yes(value: Seq<char>)
    ensures
        trimmed(value) == "1"@ ==> is_yes(value),
        ascii_lower_text(trimmed(value)) == "true"@ ==> is_yes(value),
        ascii_lower_text(trimmed(value)) == "yes"@ ==> is_yes(value),
        is_yes(value) ==> trimmed(value) == "1"@ || ascii_lower_text(trimmed(value)) == "true"@
            || ascii_lower_text(trimmed(value)) == "yes"@,
{
    reveal_strlit("true");
    reveal_strlit("yes");
    assert(ascii_lower_text("true"@) =~= "true"@);
    assert(ascii_lower_text("yes"@) =~= "yes"@);
}

/// Law: the search for a port goes up one by one through its range and then
/// starts again; from elsewhere it starts with the first.
pub proof fn law_ports_go_round(current: u16)
    ensures
        37878 <= current < 37977 ==> following_port(current) == current + 1,
        current < 37878 || current >= 37977 ==> following_port(current) == 37878,
        37878 <= current <= 37977 ==> default_port(current) == current,
        current < 37878 || current > 37977 ==> default_port(current) == 37878,
{
}

/// Law: a request that leads nowhere, or to a session that is not there, is not
/// found; another leads to its endpoint of the session that is meant, and the
/// server answers for itself only where it is asked what there is.
pub proof fn law_where_requests_lead(method: Seq<char>, path: Seq<char>, live: Seq<u64>)
    ensures
        ({
            let r = destination_of(method, path, live);
            match route_of(method, path) {
                Route::Unknown => r matches DestinationView::Answered(reply) && reply.status == 404,
                Route::Session(Some(number), endpoint) => if live.contains(number) {
                    r == DestinationView::Session(number, endpoint)
                } else {
                    r matches DestinationView::Answered(reply) && reply.status == 404
                },
                Route::Session(None, endpoint) => if live.len() > 0 {
                    r matches DestinationView::Session(number, reached) && reached == endpoint
                        && live.contains(number)
                } else {
                    r matches DestinationView::Answered(reply) && reply.status == 404
                },
                Route::Tabs => r matches DestinationView::Answered(reply) && reply.status == 200
                    && reply.body == sessions_text(live),
                Route::Index => r matches DestinationView::Answered(reply) && reply.status == 200,
            }
        }),
        route_of(method, path) != Route::Unknown ==> method == "GET"@ || method == "POST"@,
{
    law_only_live_sessions_are_reached(None, live);
}

/// Law: the sessions are listed one after the other, each with its own number.
pub proof fn law_sessions_are_listed_one_by_one(first: Seq<u64>, more: Seq<u64>)
    ensures
        sessions_text(first + more) == sessions_text(first) + sessions_text(more),
        sessions_text(Seq::<u64>::empty()).len() == 0,
    decreases more.len(),
{
    if more.len() == 0 {
        assert(first + more =~= first);
        assert(sessions_text(first) + sessions_text(more) =~= sessions_text(first));
    } else {
        law_sessions_are_listed_one_by_one(first, more.drop_last());
        assert((first + more).drop_last() =~= first + more.drop_last());
        assert(sessions_text(first + more) =~= sessions_text(first) + sessions_text(more));
    }
}

/// Law: the digits of a session's number are read as a number; without a digit,
/// or with anything else among them, there is no session.
pub proof fn law_numbers_of_sessions(number: u64, text: Seq<char>, i: int)
    ensures
        session_number(ascii_text(decimal(number as nat))) == Some(number),
        session_number(Seq::empty()) is None,
        0 <= i < text.len() && !('0' <= text[i] <= '9') ==> session_number(text) is None,
{
    lemma_decimal_digits(number as nat);
}

/// Law: what was written is counted, and as an injection only where it was one;
/// nothing else of the state changes.
pub proof fn law_writes_are_counted(state: StateView, bytes: int, injected: bool)
    requires
        0 <= bytes,
        state.counters.bytes_to_pty + bytes <= u64::MAX,
        state.counters.injected_events < u64::MAX,
    ensures
        ({
            let after = state.with_written(bytes, injected);
            &&& after.counters.bytes_to_pty == state.counters.bytes_to_pty + bytes
            &&& injected ==> after.counters.injected_events == state.counters.injected_events + 1
            &&& !injected ==> after.counters.injected_events == state.counters.injected_events
            &&& after.counters.bytes_from_pty == state.counters.bytes_from_pty
            &&& after.counters.key_events == state.counters.key_events
            &&& after.counters.http_requests == state.counters.http_requests
            &&& after.counters.resize_events == state.counters.resize_events
            &&& after.note == state.note
            &&& after.last_error == state.last_error
            &&& after.status == state.status
            &&& after.screen_lines == state.screen_lines
        }),
{
}

/// Law: a note that is no text and input that is empty are refused as bad
/// requests; a note that is text is taken, and an endpoint without a body is not
/// found.
pub proof fn law_how_bodies_are_answered(body: Seq<u8>, state: StateView)
    ensures
        body_action(Endpoint::Input, Seq::empty(), state).0 matches DebugActionView::Reply(reply)
            && reply.status == 400,
        !valid_utf8(body) ==> (body_action(Endpoint::Note, body, state).0 matches
            DebugActionView::Reply(reply) && reply.status == 400),
        valid_utf8(body) ==> (body_action(Endpoint::Note, body, state).0 matches
            DebugActionView::Reply(reply) && reply.status == 200),
        body_action(Endpoint::State, body, state).0 matches DebugActionView::Reply(reply)
            && reply.status == 404,
        body_action(Endpoint::Screen, body, state).0 matches DebugActionView::Reply(reply)
            && reply.status == 404,
        body_action(Endpoint::State, body, state).1 == state,
        body_action(Endpoint::Screen, body, state).1 == state,
{
}

} // verus!
