//! Splits the byte stream of a pseudo-terminal into SIXEL payloads, tmux
//! passthrough payloads, other device control strings (DCS) and plain bytes.
//!
//! The parser is transparent: what is no DCS sequence is handed on byte for
//! byte, so that the terminal behind it sees an unmodified stream.
use vstd::prelude::*;
use vstd::utf8::{is_continuation_byte, pop_first_scalar, valid_first_scalar, valid_utf8};

use crate::sixel::decoder::{escape_tmux, tmux_prefix, ESC};

verus! {

/// How many bytes one unterminated DCS may take in before the parser gives it
/// up and hands the bytes on.
pub const MAX_DCS_BYTES: usize = 16 * 1024 * 1024;

/// The eight-bit string terminator. Inside a UTF-8 character the same byte is
/// part of that character.
pub const ST: u8 = 0x9c;

/// The escape sequence introducing a DCS.
pub open spec fn dcs_introducer() -> Seq<u8> {
    seq![ESC, 0x50u8]
}

/// What the parser hands on.
pub enum SixelStreamAction {
    Bytes(Vec<u8>),
    Sixel(Vec<u8>),
    TmuxPassthrough { payload: Vec<u8>, raw: Vec<u8> },
    UnknownDcs(Vec<u8>),
}

/// The mathematical value of a [`SixelStreamAction`].
pub ghost enum ActionView {
    Bytes(Seq<u8>),
    Sixel(Seq<u8>),
    TmuxPassthrough { payload: Seq<u8>, raw: Seq<u8> },
    UnknownDcs(Seq<u8>),
}

impl View for SixelStreamAction {
    type V = ActionView;

    open spec fn view(&self) -> ActionView {
        match self {
            SixelStreamAction::Bytes(bytes) => ActionView::Bytes(bytes@),
            SixelStreamAction::Sixel(payload) => ActionView::Sixel(payload@),
            SixelStreamAction::TmuxPassthrough { payload, raw } => ActionView::TmuxPassthrough {
                payload: payload@,
                raw: raw@,
            },
            SixelStreamAction::UnknownDcs(raw) => ActionView::UnknownDcs(raw@),
        }
    }
}

pub open spec fn action_views(actions: Seq<SixelStreamAction>) -> Seq<ActionView> {
    actions.map_values(|action: SixelStreamAction| action@)
}

/// Where the parser stands in the stream.
pub enum SixelStreamState {
    Ground,
    Escape,
    DcsEntry { raw: Vec<u8> },
    DcsData { action: u8, raw: Vec<u8>, payload: Vec<u8>, pending_escape: bool },
}

/// The mathematical value of a [`SixelStreamState`].
pub ghost enum StateView {
    Ground,
    Escape,
    DcsEntry { raw: Seq<u8> },
    DcsData { action: u8, raw: Seq<u8>, payload: Seq<u8>, pending_escape: bool },
}

impl View for SixelStreamState {
    type V = StateView;

    open spec fn view(&self) -> StateView {
        match self {
            SixelStreamState::Ground => StateView::Ground,
            SixelStreamState::Escape => StateView::Escape,
            SixelStreamState::DcsEntry { raw } => StateView::DcsEntry { raw: raw@ },
            SixelStreamState::DcsData { action, raw, payload, pending_escape } =>
                StateView::DcsData {
                action: *action,
                raw: raw@,
                payload: payload@,
                pending_escape: *pending_escape,
            },
        }
    }
}

impl StateView {
    /// The bytes taken in and not handed on yet.
    pub open spec fn held(self) -> Seq<u8> {
        match self {
            StateView::Ground => Seq::empty(),
            StateView::Escape => seq![ESC],
            StateView::DcsEntry { raw } => raw,
            StateView::DcsData { raw, .. } => raw,
        }
    }

    /// A DCS that is being collected starts with its introducer and is no
    /// longer than the limit.
    pub open spec fn wf(self, max_dcs_bytes: nat) -> bool {
        match self {
            StateView::Ground => true,
            StateView::Escape => true,
            StateView::DcsEntry { raw } => dcs_introducer().is_prefix_of(raw) && (raw
                == dcs_introducer() || raw.len() <= max_dcs_bytes),
            StateView::DcsData { raw, .. } => dcs_introducer().is_prefix_of(raw) && raw.len()
                <= max_dcs_bytes,
        }
    }
}

/// CAN and SUB abort a control sequence.
pub open spec fn is_abort(byte: u8) -> bool {
    byte == 0x18 || byte == 0x1a
}

/// Whether a byte may be the second one of a UTF-8 character of more than one
/// byte.
pub open spec fn may_follow(lead: u8, byte: u8) -> bool {
    &&& is_continuation_byte(byte)
    &&& lead == 0xe0 ==> byte >= 0xa0
    &&& lead == 0xed ==> byte <= 0x9f
    &&& lead == 0xf0 ==> byte >= 0x90
    &&& lead == 0xf4 ==> byte <= 0x8f
}

/// Whether bytes end in the middle of a UTF-8 character that a byte goes on with.
pub open spec fn continues_char(before: Seq<u8>, byte: u8) -> bool {
    let n = before.len();
    ||| (n >= 1 && 0xc2 <= before[n - 1] <= 0xf4 && may_follow(before[n - 1], byte))
    ||| (n >= 2 && 0xe0 <= before[n - 2] <= 0xf4 && may_follow(before[n - 2], before[n - 1])
        && is_continuation_byte(byte))
    ||| (n >= 3 && 0xf0 <= before[n - 3] <= 0xf4 && may_follow(before[n - 3], before[n - 2])
        && is_continuation_byte(before[n - 1]) && is_continuation_byte(byte))
}

/// The action that a finished DCS stands for.
pub open spec fn dcs_action(action: u8, raw: Seq<u8>, payload: Seq<u8>) -> ActionView {
    if action == 0x71 {
        ActionView::Sixel(payload)
    } else if action == 0x74 {
        ActionView::TmuxPassthrough { payload, raw }
    } else {
        ActionView::UnknownDcs(raw)
    }
}

/// What one byte does: the state after it, the plain bytes it lets through, or
/// the DCS that it finishes.
pub ghost struct Step {
    pub state: StateView,
    pub text: Seq<u8>,
    pub action: Option<ActionView>,
}

pub open spec fn moved(state: StateView) -> Step {
    Step { state, text: Seq::empty(), action: None }
}

pub open spec fn passed(state: StateView, text: Seq<u8>) -> Step {
    Step { state, text, action: None }
}

pub open spec fn finished(action: ActionView) -> Step {
    Step { state: StateView::Ground, text: Seq::empty(), action: Some(action) }
}

pub open spec fn step(max_dcs_bytes: nat, state: StateView, byte: u8) -> Step {
    match state {
        StateView::Ground => if byte == ESC {
            moved(StateView::Escape)
        } else {
            passed(StateView::Ground, seq![byte])
        },
        StateView::Escape => if byte == 0x50 {
            moved(StateView::DcsEntry { raw: dcs_introducer() })
        } else if byte == ESC {
            passed(StateView::Escape, seq![ESC])
        } else {
            passed(StateView::Ground, seq![ESC, byte])
        },
        StateView::DcsEntry { raw } => {
            let raw = raw.push(byte);
            if is_abort(byte) || raw.len() > max_dcs_bytes {
                passed(StateView::Ground, raw)
            } else if 0x40 <= byte <= 0x7e {
                moved(
                    StateView::DcsData {
                        action: byte,
                        raw,
                        payload: Seq::empty(),
                        pending_escape: false,
                    },
                )
            } else {
                moved(StateView::DcsEntry { raw })
            }
        },
        StateView::DcsData { action, raw, payload, pending_escape } => {
            let terminated = byte == ST && !continues_char(raw, byte);
            let raw = raw.push(byte);
            if is_abort(byte) || raw.len() > max_dcs_bytes {
                passed(StateView::Ground, raw)
            } else if terminated || (pending_escape && byte == 0x5c) {
                finished(dcs_action(action, raw, payload))
            } else if pending_escape {
                moved(
                    StateView::DcsData {
                        action,
                        raw,
                        payload: payload.push(ESC).push(byte),
                        pending_escape: byte == ESC && action != 0x74,
                    },
                )
            } else if byte == ESC {
                moved(StateView::DcsData { action, raw, payload, pending_escape: true })
            } else {
                moved(
                    StateView::DcsData {
                        action,
                        raw,
                        payload: payload.push(byte),
                        pending_escape: false,
                    },
                )
            }
        },
    }
}

/// The plain bytes collected so far, as the actions that hand them on: none
/// where there are none.
pub open spec fn flushed(output: Seq<u8>) -> Seq<ActionView> {
    if output.len() == 0 {
        Seq::empty()
    } else {
        seq![ActionView::Bytes(output)]
    }
}

/// A parser in the middle of a chunk: its state, the plain bytes collected
/// since the last action, and the actions.
pub ghost struct Progress {
    pub state: StateView,
    pub output: Seq<u8>,
    pub actions: Seq<ActionView>,
}

impl Progress {
    pub open spec fn after(self, max_dcs_bytes: nat, byte: u8) -> Progress {
        let s = step(max_dcs_bytes, self.state, byte);
        match s.action {
            None => Progress {
                state: s.state,
                output: self.output + s.text,
                actions: self.actions,
            },
            Some(action) => Progress {
                state: s.state,
                output: Seq::empty(),
                actions: self.actions + flushed(self.output) + seq![action],
            },
        }
    }

    pub open spec fn after_all(self, max_dcs_bytes: nat, bytes: Seq<u8>) -> Progress
        decreases bytes.len(),
    {
        if bytes.len() == 0 {
            self
        } else {
            self.after_all(max_dcs_bytes, bytes.drop_last()).after(max_dcs_bytes, bytes.last())
        }
    }
}

/// A parser that has collected nothing in the current chunk.
pub open spec fn at(state: StateView) -> Progress {
    Progress { state, output: Seq::empty(), actions: Seq::empty() }
}

/// The state after a chunk.
pub open spec fn state_after(max_dcs_bytes: nat, state: StateView, bytes: Seq<u8>) -> StateView {
    at(state).after_all(max_dcs_bytes, bytes).state
}

/// What a chunk hands on.
pub open spec fn actions_of(max_dcs_bytes: nat, state: StateView, bytes: Seq<u8>) -> Seq<
    ActionView,
> {
    let end = at(state).after_all(max_dcs_bytes, bytes);
    end.actions + flushed(end.output)
}

pub struct SixelStreamParser {
    state: SixelStreamState,
    max_dcs_bytes: usize,
}

impl SixelStreamParser {
    pub closed spec fn state(&self) -> StateView {
        self.state@
    }

    pub closed spec fn limit(&self) -> nat {
        self.max_dcs_bytes as nat
    }

    pub open spec fn wf(&self) -> bool {
        self.state().wf(self.limit())
    }
}

impl Default for SixelStreamParser {
    fn default() -> (parser: SixelStreamParser)
        ensures
            parser.state() == StateView::Ground,
            parser.limit() == MAX_DCS_BYTES,
            parser.wf(),
    {
        SixelStreamParser { state: SixelStreamState::Ground, max_dcs_bytes: MAX_DCS_BYTES }
    }
}

/// Whether a byte aborts the control sequence it stands in.
pub fn aborts_control_sequence(byte: u8) -> (r: bool)
    ensures
        r == is_abort(byte),
{
    byte == 0x18 || byte == 0x1a
}

fn is_second_byte(lead: u8, byte: u8) -> (r: bool)
    ensures
        r == may_follow(lead, byte),
{
    0x80 <= byte && byte <= 0xbf && !(lead == 0xe0 && byte < 0xa0) && !(lead == 0xed && byte > 0x9f)
        && !(lead == 0xf0 && byte < 0x90) && !(lead == 0xf4 && byte > 0x8f)
}

/// Whether a byte goes on with a UTF-8 character that the bytes before it end in
/// the middle of.
pub fn continues_character(before: &[u8], byte: u8) -> (r: bool)
    ensures
        r == continues_char(before@, byte),
{
    let n: usize = before.len();
    if byte < 0x80 || 0xbf < byte || n == 0 {
        return false;
    }
    let last: u8 = before[n - 1];
    if 0xc2 <= last && last <= 0xf4 {
        return is_second_byte(last, byte);
    }
    if n < 2 || last < 0x80 || 0xbf < last {
        return false;
    }
    let second: u8 = before[n - 2];
    if 0xe0 <= second && second <= 0xf4 {
        return is_second_byte(second, last);
    }
    n >= 3 && 0xf0 <= before[n - 3] && before[n - 3] <= 0xf4 && is_second_byte(
        before[n - 3],
        second,
    )
}

/// Gives a DCS up: its bytes follow the plain bytes, in their order.
pub fn abandon_dcs(raw: &[u8], output: &mut Vec<u8>) -> (state: SixelStreamState)
    ensures
        state@ == StateView::Ground,
        final(output)@ == old(output)@ + raw@,
{
    output.extend_from_slice(raw);
    SixelStreamState::Ground
}

impl SixelStreamParser {
    /// A parser with another limit on the length of a DCS.
    pub fn with_max_dcs_bytes(max_dcs_bytes: usize) -> (parser: Self)
        ensures
            parser.state() == StateView::Ground,
            parser.limit() == max_dcs_bytes,
            parser.wf(),
    {
        SixelStreamParser { state: SixelStreamState::Ground, max_dcs_bytes }
    }

    /// Takes in a chunk of the stream. Sequences may be cut anywhere between
    /// two chunks.
    pub fn advance(&mut self, bytes: &[u8]) -> (actions: Vec<SixelStreamAction>)
        ensures
            final(self).limit() == old(self).limit(),
            final(self).state() == state_after(old(self).limit(), old(self).state(), bytes@),
            action_views(actions@) == actions_of(old(self).limit(), old(self).state(), bytes@),
            old(self).wf() ==> final(self).wf(),
    {
        let mut actions: Vec<SixelStreamAction> = Vec::new();
        let mut output: Vec<u8> = Vec::new();
        let ghost start = at(self.state());
        let ghost max = self.limit();
        let mut i: usize = 0;
        assert(action_views(actions@) =~= Seq::<ActionView>::empty());
        assert(bytes@.take(0) =~= Seq::<u8>::empty());
        while i < bytes.len()
            invariant
                0 <= i <= bytes@.len(),
                self.limit() == max,
                max == old(self).limit(),
                start == at(old(self).state()),
                old(self).wf() ==> self.wf(),
                (Progress {
                    state: self.state(),
                    output: output@,
                    actions: action_views(actions@),
                }) == start.after_all(max, bytes@.take(i as int)),
            decreases bytes@.len() - i,
        {
            self.advance_byte(bytes[i], &mut output, &mut actions);
            proof {
                let taken = bytes@.take(i + 1);
                assert(taken.drop_last() =~= bytes@.take(i as int));
            }
            i += 1;
        }
        assert(bytes@.take(bytes@.len() as int) =~= bytes@);
        let ghost before = actions@;
        let ghost text = output@;
        if output.len() > 0 {
            actions.push(SixelStreamAction::Bytes(output));
        }
        assert(action_views(actions@) =~= action_views(before) + flushed(text));
        actions
    }

    /// Appends the action of a finished DCS, after the plain bytes before it.
    pub fn finish_dcs(
        &self,
        action: u8,
        raw: Vec<u8>,
        payload: Vec<u8>,
        output: &mut Vec<u8>,
        actions: &mut Vec<SixelStreamAction>,
    )
        ensures
            final(output)@ == Seq::<u8>::empty(),
            action_views(final(actions)@) == action_views(old(actions)@) + flushed(old(output)@)
                + seq![dcs_action(action, raw@, payload@)],
    {
        let ghost before = actions@;
        if output.len() > 0 {
            let mut text: Vec<u8> = Vec::new();
            text.append(output);
            actions.push(SixelStreamAction::Bytes(text));
        }
        let ghost flushed_actions = actions@;
        assert(action_views(flushed_actions) =~= action_views(before) + flushed(old(output)@));
        assert(output@ =~= Seq::<u8>::empty());
        let finished_action = if action == 0x71 {
            SixelStreamAction::Sixel(payload)
        } else if action == 0x74 {
            SixelStreamAction::TmuxPassthrough { payload, raw }
        } else {
            SixelStreamAction::UnknownDcs(raw)
        };
        actions.push(finished_action);
        assert(action_views(actions@) =~= action_views(flushed_actions) + seq![
            dcs_action(action, raw@, payload@),
        ]);
    }

    /// Takes in one byte.
    pub fn advance_byte(
        &mut self,
        byte: u8,
        output: &mut Vec<u8>,
        actions: &mut Vec<SixelStreamAction>,
    )
        ensures
            final(self).limit() == old(self).limit(),
            (Progress {
                state: final(self).state(),
                output: final(output)@,
                actions: action_views(final(actions)@),
            }) == (Progress {
                state: old(self).state(),
                output: old(output)@,
                actions: action_views(old(actions)@),
            }).after(old(self).limit(), byte),
            old(self).wf() ==> final(self).wf(),
    {
        let ghost before = self.state();
        let mut state = SixelStreamState::Ground;
        std::mem::swap(&mut self.state, &mut state);
        self.state = match state {
            SixelStreamState::Ground => {
                if byte == ESC {
                    SixelStreamState::Escape
                } else {
                    output.push(byte);
                    SixelStreamState::Ground
                }
            },
            SixelStreamState::Escape => {
                if byte == 0x50 {
                    let raw: Vec<u8> = vec![ESC, 0x50u8];
                    assert(raw@ =~= dcs_introducer());
                    SixelStreamState::DcsEntry { raw }
                } else if byte == ESC {
                    output.push(ESC);
                    SixelStreamState::Escape
                } else {
                    output.push(ESC);
                    output.push(byte);
                    SixelStreamState::Ground
                }
            },
            SixelStreamState::DcsEntry { mut raw } => {
                raw.push(byte);
                if aborts_control_sequence(byte) || raw.len() > self.max_dcs_bytes {
                    abandon_dcs(raw.as_slice(), output)
                } else if 0x40 <= byte && byte <= 0x7e {
                    SixelStreamState::DcsData {
                        action: byte,
                        raw,
                        payload: Vec::new(),
                        pending_escape: false,
                    }
                } else {
                    SixelStreamState::DcsEntry { raw }
                }
            },
            SixelStreamState::DcsData { action, mut raw, mut payload, pending_escape } => {
                let terminated = byte == ST && !continues_character(raw.as_slice(), byte);
                raw.push(byte);
                if aborts_control_sequence(byte) || raw.len() > self.max_dcs_bytes {
                    abandon_dcs(raw.as_slice(), output)
                } else if terminated || (pending_escape && byte == 0x5c) {
                    self.finish_dcs(action, raw, payload, output, actions);
                    SixelStreamState::Ground
                } else if pending_escape {
                    payload.push(ESC);
                    payload.push(byte);
                    SixelStreamState::DcsData {
                        action,
                        raw,
                        payload,
                        pending_escape: byte == ESC && action != 0x74,
                    }
                } else if byte == ESC {
                    SixelStreamState::DcsData { action, raw, payload, pending_escape: true }
                } else {
                    payload.push(byte);
                    SixelStreamState::DcsData { action, raw, payload, pending_escape: false }
                }
            },
        };
        proof {
            let s = step(self.limit(), before, byte);
            assert(self.state() == s.state);
            if s.action is None {
                assert(output@ =~= old(output)@ + s.text);
            }
            if before.wf(self.limit()) {
                law_step_keeps_wf(self.limit(), before, byte);
            }
        }
    }
}

/// Law: every step keeps the state well-formed; no DCS is ever held beyond the
/// limit.
pub proof fn law_step_keeps_wf(max_dcs_bytes: nat, state: StateView, byte: u8)
    requires
        state.wf(max_dcs_bytes),
    ensures
        step(max_dcs_bytes, state, byte).state.wf(max_dcs_bytes),
{
}

/// Law: from any well-formed state the bytes held back stay bounded, whatever
/// arrives.
pub proof fn law_held_bytes_are_bounded(max_dcs_bytes: nat, state: StateView, bytes: Seq<u8>)
    requires
        state.wf(max_dcs_bytes),
    ensures
        state_after(max_dcs_bytes, state, bytes).wf(max_dcs_bytes),
        state_after(max_dcs_bytes, state, bytes).held().len() <= max_dcs_bytes || state_after(
            max_dcs_bytes,
            state,
            bytes,
        ).held().len() <= 2,
    decreases bytes.len(),
{
    if bytes.len() > 0 {
        law_held_bytes_are_bounded(max_dcs_bytes, state, bytes.drop_last());
        law_step_keeps_wf(
            max_dcs_bytes,
            state_after(max_dcs_bytes, state, bytes.drop_last()),
            bytes.last(),
        );
    }
}

/// The bytes of the stream that one step hands on, those that framed a SIXEL
/// payload included.
pub open spec fn step_source(max_dcs_bytes: nat, state: StateView, byte: u8) -> Seq<u8> {
    let s = step(max_dcs_bytes, state, byte);
    if s.action is Some {
        state.held().push(byte)
    } else {
        s.text
    }
}

/// The bytes of the stream that a chunk hands on, in their order.
pub open spec fn source_of(max_dcs_bytes: nat, state: StateView, bytes: Seq<u8>) -> Seq<u8>
    decreases bytes.len(),
{
    if bytes.len() == 0 {
        Seq::empty()
    } else {
        source_of(max_dcs_bytes, state, bytes.drop_last()) + step_source(
            max_dcs_bytes,
            state_after(max_dcs_bytes, state, bytes.drop_last()),
            bytes.last(),
        )
    }
}

/// Law: no byte is lost, added or moved. What was held before a chunk and the
/// chunk itself are what the chunk hands on and what is held after it; and an
/// action that carries its raw bytes carries exactly those it was made from.
pub proof fn law_no_byte_is_lost(max_dcs_bytes: nat, state: StateView, bytes: Seq<u8>)
    ensures
        state.held() + bytes == source_of(max_dcs_bytes, state, bytes) + state_after(
            max_dcs_bytes,
            state,
            bytes,
        ).held(),
    decreases bytes.len(),
{
    if bytes.len() == 0 {
        assert(state.held() + bytes =~= source_of(max_dcs_bytes, state, bytes) + state.held());
    } else {
        let front = bytes.drop_last();
        let byte = bytes.last();
        law_no_byte_is_lost(max_dcs_bytes, state, front);
        let middle = state_after(max_dcs_bytes, state, front);
        law_step_loses_no_byte(max_dcs_bytes, middle, byte);
        let done = source_of(max_dcs_bytes, state, front);
        let emitted = step_source(max_dcs_bytes, middle, byte);
        let end = step(max_dcs_bytes, middle, byte).state;
        assert(bytes =~= front.push(byte));
        assert(state.held() + bytes =~= (state.held() + front).push(byte));
        assert((done + middle.held()).push(byte) =~= done + (middle.held().push(byte)));
        assert(done + (emitted + end.held()) =~= (done + emitted) + end.held());
    }
}

/// Law: one step loses no byte, and a tmux passthrough or an unknown DCS
/// carries exactly the bytes it was made from.
pub proof fn law_step_loses_no_byte(max_dcs_bytes: nat, state: StateView, byte: u8)
    ensures
        state.held().push(byte) == step_source(max_dcs_bytes, state, byte) + step(
            max_dcs_bytes,
            state,
            byte,
        ).state.held(),
        match step(max_dcs_bytes, state, byte).action {
            Some(ActionView::TmuxPassthrough { raw, .. }) => raw == state.held().push(byte),
            Some(ActionView::UnknownDcs(raw)) => raw == state.held().push(byte),
            Some(ActionView::Sixel(_)) => byte == ST || byte == 0x5c,
            Some(ActionView::Bytes(_)) => false,
            None => true,
        },
{
    assert(state.held().push(byte) =~= step_source(max_dcs_bytes, state, byte) + step(
        max_dcs_bytes,
        state,
        byte,
    ).state.held());
}

/// What the stream means to the terminal, with plain bytes taken one by one.
pub ghost enum StreamEvent {
    Text(u8),
    Dcs(ActionView),
}

pub open spec fn text_events(text: Seq<u8>) -> Seq<StreamEvent> {
    text.map_values(|byte: u8| StreamEvent::Text(byte))
}

pub open spec fn events_of(actions: Seq<ActionView>) -> Seq<StreamEvent>
    decreases actions.len(),
{
    if actions.len() == 0 {
        Seq::empty()
    } else {
        events_of(actions.drop_last()) + match actions.last() {
            ActionView::Bytes(text) => text_events(text),
            other => seq![StreamEvent::Dcs(other)],
        }
    }
}

pub open spec fn step_events(max_dcs_bytes: nat, state: StateView, byte: u8) -> Seq<StreamEvent> {
    let s = step(max_dcs_bytes, state, byte);
    match s.action {
        None => text_events(s.text),
        Some(action) => seq![StreamEvent::Dcs(action)],
    }
}

pub open spec fn stream_events(max_dcs_bytes: nat, state: StateView, bytes: Seq<u8>) -> Seq<
    StreamEvent,
>
    decreases bytes.len(),
{
    if bytes.len() == 0 {
        Seq::empty()
    } else {
        stream_events(max_dcs_bytes, state, bytes.drop_last()) + step_events(
            max_dcs_bytes,
            state_after(max_dcs_bytes, state, bytes.drop_last()),
            bytes.last(),
        )
    }
}

proof fn lemma_events_of_flushed(actions: Seq<ActionView>, output: Seq<u8>)
    ensures
        events_of(actions + flushed(output)) == events_of(actions) + text_events(output),
{
    if output.len() == 0 {
        assert(actions + flushed(output) =~= actions);
        assert(events_of(actions) + text_events(output) =~= events_of(actions));
    } else {
        let all = actions + flushed(output);
        assert(all.drop_last() =~= actions);
    }
}

proof fn lemma_progress_events(max_dcs_bytes: nat, state: StateView, bytes: Seq<u8>)
    ensures
        ({
            let end = at(state).after_all(max_dcs_bytes, bytes);
            events_of(end.actions) + text_events(end.output) == stream_events(
                max_dcs_bytes,
                state,
                bytes,
            )
        }),
    decreases bytes.len(),
{
    if bytes.len() == 0 {
        assert(events_of(Seq::empty()) + text_events(Seq::empty()) =~= Seq::<StreamEvent>::empty());
    } else {
        let front = bytes.drop_last();
        let byte = bytes.last();
        lemma_progress_events(max_dcs_bytes, state, front);
        let middle = at(state).after_all(max_dcs_bytes, front);
        let end = middle.after(max_dcs_bytes, byte);
        let s = step(max_dcs_bytes, middle.state, byte);
        match s.action {
            None => {
                assert(text_events(middle.output + s.text) =~= text_events(middle.output)
                    + text_events(s.text));
                assert(events_of(middle.actions) + (text_events(middle.output) + text_events(
                    s.text,
                )) =~= (events_of(middle.actions) + text_events(middle.output)) + text_events(
                    s.text,
                ));
            },
            Some(action) => {
                law_step_loses_no_byte(max_dcs_bytes, middle.state, byte);
                lemma_events_of_flushed(middle.actions, middle.output);
                assert(end.actions.drop_last() =~= middle.actions + flushed(middle.output));
                assert(end.actions.last() == action);
                assert(events_of(end.actions) + text_events(Seq::empty()) =~= events_of(
                    end.actions,
                ));
            },
        }
    }
}

/// Law: what a chunk hands on is what its bytes mean one after the other.
pub proof fn law_actions_are_the_events_of_the_bytes(
    max_dcs_bytes: nat,
    state: StateView,
    bytes: Seq<u8>,
)
    ensures
        events_of(actions_of(max_dcs_bytes, state, bytes)) == stream_events(
            max_dcs_bytes,
            state,
            bytes,
        ),
{
    let end = at(state).after_all(max_dcs_bytes, bytes);
    lemma_events_of_flushed(end.actions, end.output);
    lemma_progress_events(max_dcs_bytes, state, bytes);
}

proof fn lemma_state_after_concat(
    max_dcs_bytes: nat,
    state: StateView,
    first: Seq<u8>,
    second: Seq<u8>,
)
    ensures
        state_after(max_dcs_bytes, state, first + second) == state_after(
            max_dcs_bytes,
            state_after(max_dcs_bytes, state, first),
            second,
        ),
        stream_events(max_dcs_bytes, state, first + second) == stream_events(
            max_dcs_bytes,
            state,
            first,
        ) + stream_events(max_dcs_bytes, state_after(max_dcs_bytes, state, first), second),
    decreases second.len(),
{
    let middle = state_after(max_dcs_bytes, state, first);
    if second.len() == 0 {
        assert(first + second =~= first);
        assert(stream_events(max_dcs_bytes, state, first) + stream_events(
            max_dcs_bytes,
            middle,
            second,
        ) =~= stream_events(max_dcs_bytes, state, first));
    } else {
        let front = second.drop_last();
        lemma_state_after_concat(max_dcs_bytes, state, first, front);
        assert((first + second).drop_last() =~= first + front);
        assert((first + second).last() == second.last());
        let tail = step_events(
            max_dcs_bytes,
            state_after(max_dcs_bytes, middle, front),
            second.last(),
        );
        assert((stream_events(max_dcs_bytes, state, first) + stream_events(
            max_dcs_bytes,
            middle,
            front,
        )) + tail =~= stream_events(max_dcs_bytes, state, first) + (stream_events(
            max_dcs_bytes,
            middle,
            front,
        ) + tail));
    }
}

/// Law: where the stream is cut into chunks makes no difference. Two chunks
/// leave the parser in the state, and mean to the terminal, what the two in
/// one chunk do.
pub proof fn law_chunking_makes_no_difference(
    max_dcs_bytes: nat,
    state: StateView,
    first: Seq<u8>,
    second: Seq<u8>,
)
    ensures
        state_after(max_dcs_bytes, state, first + second) == state_after(
            max_dcs_bytes,
            state_after(max_dcs_bytes, state, first),
            second,
        ),
        events_of(actions_of(max_dcs_bytes, state, first + second)) == events_of(
            actions_of(max_dcs_bytes, state, first),
        ) + events_of(
            actions_of(max_dcs_bytes, state_after(max_dcs_bytes, state, first), second),
        ),
{
    lemma_state_after_concat(max_dcs_bytes, state, first, second);
    law_actions_are_the_events_of_the_bytes(max_dcs_bytes, state, first + second);
    law_actions_are_the_events_of_the_bytes(max_dcs_bytes, state, first);
    law_actions_are_the_events_of_the_bytes(
        max_dcs_bytes,
        state_after(max_dcs_bytes, state, first),
        second,
    );
}

/// Law: outside a control sequence, bytes without an escape pass unchanged, in
/// one piece.
pub proof fn law_plain_text_passes_unchanged(max_dcs_bytes: nat, bytes: Seq<u8>)
    requires
        !bytes.contains(ESC),
    ensures
        state_after(max_dcs_bytes, StateView::Ground, bytes) == StateView::Ground,
        actions_of(max_dcs_bytes, StateView::Ground, bytes) == flushed(bytes),
{
    at(StateView::Ground).lemma_after_text(max_dcs_bytes, bytes);
    assert(Seq::<u8>::empty() + bytes =~= bytes);
    assert(Seq::<ActionView>::empty() + flushed(bytes) =~= flushed(bytes));
}

/// Law: inside a DCS, CAN and SUB, and a byte beyond the limit, hand every
/// byte of it on as plain text and lead back to the ground state.
pub proof fn law_abort_hands_the_dcs_on(max_dcs_bytes: nat, state: StateView, byte: u8)
    requires
        state is DcsEntry || state is DcsData,
        is_abort(byte) || state.held().len() + 1 > max_dcs_bytes,
    ensures
        step(max_dcs_bytes, state, byte) == passed(StateView::Ground, state.held().push(byte)),
{
}

// ---------------------------------------------------------------------------
// Whole frames
// ---------------------------------------------------------------------------

/// Bytes that neither end a DCS nor abort it where they stand behind others.
pub open spec fn is_inner_behind(before: Seq<u8>, bytes: Seq<u8>) -> bool {
    forall|i: int|
        0 <= i < bytes.len() ==> !is_abort(#[trigger] bytes[i]) && (bytes[i] == ST
            ==> continues_char(before + bytes.take(i), ST))
}

/// Bytes that neither end a DCS nor abort it: the byte of the terminator occurs
/// only inside their own characters.
pub open spec fn is_inner_text(bytes: Seq<u8>) -> bool {
    is_inner_behind(Seq::empty(), bytes)
}

/// Only the bytes of a character itself tell whether a byte goes on with it.
proof fn lemma_continues_behind(before: Seq<u8>, bytes: Seq<u8>, byte: u8)
    ensures
        continues_char(bytes, byte) ==> continues_char(before + bytes, byte),
        before.len() > 0 && before.last() < 0x80 && continues_char(before + bytes, byte)
            ==> continues_char(bytes, byte),
{
    let all = before + bytes;
    let n = bytes.len();
    if n >= 1 {
        assert(all[all.len() - 1] == bytes[n - 1]);
    }
    if n >= 2 {
        assert(all[all.len() - 2] == bytes[n - 2]);
    }
    if n >= 3 {
        assert(all[all.len() - 3] == bytes[n - 3]);
    }
    if before.len() > 0 {
        assert(all[before.len() - 1] == before.last());
    }
}

proof fn lemma_inner_behind(before: Seq<u8>, bytes: Seq<u8>)
    requires
        is_inner_text(bytes),
    ensures
        is_inner_behind(before, bytes),
{
    assert forall|i: int| 0 <= i < bytes.len() implies !is_abort(#[trigger] bytes[i]) && (bytes[i]
        == ST ==> continues_char(before + bytes.take(i), ST)) by {
        assert(Seq::<u8>::empty() + bytes.take(i) =~= bytes.take(i));
        lemma_continues_behind(before, bytes.take(i), ST);
    }
}

/// The bytes of the first character of a text: behind its lead stand bytes that
/// go on with it.
proof fn lemma_first_char(bytes: Seq<u8>, i: int)
    requires
        valid_first_scalar(bytes),
        0 <= i < vstd::utf8::length_of_first_scalar(bytes),
        bytes[i] == ST,
    ensures
        continues_char(bytes.take(i), ST),
{
    let b1 = bytes[0];
    let before = bytes.take(i);
    if vstd::utf8::is_leading_byte_width_2(b1) {
        let b2 = bytes[1];
        assert(0xc0 <= b1 <= 0xdf && (((b1 & 0x1f) as u32) << 6) | ((b2 & 0x3f) as u32) >= 0x80
            ==> b1 >= 0xc2) by (bit_vector);
        assert(before[0] == b1);
    } else if vstd::utf8::is_leading_byte_width_3(b1) {
        let b2 = bytes[1];
        let b3 = bytes[2];
        let code = (((b1 & 0x0f) as u32) << 12) | (((b2 & 0x3f) as u32) << 6) | ((b3 & 0x3f)
            as u32);
        assert(code == (((b1 & 0x0f) as u32) << 12) | (((b2 & 0x3f) as u32) << 6) | ((b3 & 0x3f)
            as u32) && code >= 0x800 && 0x80 <= b2 <= 0xbf && b1 == 0xe0 ==> b2 >= 0xa0)
            by (bit_vector);
        assert(code == (((b1 & 0x0f) as u32) << 12) | (((b2 & 0x3f) as u32) << 6) | ((b3 & 0x3f)
            as u32) && !(0xd800 <= code <= 0xdfff) && 0x80 <= b2 <= 0xbf && b1 == 0xed ==> b2
            <= 0x9f) by (bit_vector);
        assert(before[0] == b1);
        if i == 2 {
            assert(before[1] == b2);
        }
    } else if vstd::utf8::is_leading_byte_width_4(b1) {
        let b2 = bytes[1];
        let b3 = bytes[2];
        let b4 = bytes[3];
        let code = (((b1 & 0x07) as u32) << 18) | (((b2 & 0x3f) as u32) << 12) | (((b3 & 0x3f)
            as u32) << 6) | ((b4 & 0x3f) as u32);
        assert(code == (((b1 & 0x07) as u32) << 18) | (((b2 & 0x3f) as u32) << 12) | (((b3 & 0x3f)
            as u32) << 6) | ((b4 & 0x3f) as u32) && 0x10000 <= code <= 0x10ffff && 0xf0 <= b1
            <= 0xf7 && 0x80 <= b2 <= 0xbf ==> b1 <= 0xf4 && (b1 == 0xf0 ==> b2 >= 0x90) && (b1
            == 0xf4 ==> b2 <= 0x8f)) by (bit_vector);
        assert(before[0] == b1);
        if i >= 2 {
            assert(before[1] == b2);
        }
        if i == 3 {
            assert(before[2] == b3);
        }
    }
}

/// Law: a character never ends a DCS. UTF-8 text that holds no CAN and no SUB can
/// stand inside one, though the byte of the terminator may be part of its
/// characters.
pub proof fn law_characters_do_not_end_a_dcs(bytes: Seq<u8>)
    requires
        valid_utf8(bytes),
        forall|i: int| 0 <= i < bytes.len() ==> !is_abort(#[trigger] bytes[i]),
    ensures
        is_inner_text(bytes),
    decreases bytes.len(),
{
    if bytes.len() > 0 {
        let len = vstd::utf8::length_of_first_scalar(bytes);
        let rest = pop_first_scalar(bytes);
        assert forall|i: int| 0 <= i < rest.len() implies !is_abort(#[trigger] rest[i]) by {
            assert(rest[i] == bytes[len + i]);
        }
        law_characters_do_not_end_a_dcs(rest);
        assert forall|i: int| 0 <= i < bytes.len() && bytes[i] == ST implies continues_char(
            Seq::<u8>::empty() + #[trigger] bytes.take(i),
            ST,
        ) by {
            assert(Seq::<u8>::empty() + bytes.take(i) =~= bytes.take(i));
            if i < len {
                lemma_first_char(bytes, i);
            } else {
                let k = i - len;
                assert(rest[k] == ST);
                assert(Seq::<u8>::empty() + rest.take(k) =~= rest.take(k));
                lemma_continues_behind(bytes.take(len), rest.take(k), ST);
                assert(bytes.take(len) + rest.take(k) =~= bytes.take(i));
            }
        }
    }
}

/// The parameters in front of the final byte of an introducer.
pub open spec fn is_parameter_text(bytes: Seq<u8>) -> bool {
    forall|i: int|
        0 <= i < bytes.len() ==> !(0x40 <= #[trigger] bytes[i] <= 0x7e) && !is_abort(bytes[i])
}

/// A DCS with its introducer and its terminator.
pub open spec fn dcs_frame(params: Seq<u8>, action: u8, payload: Seq<u8>) -> Seq<u8> {
    (dcs_introducer() + params).push(action) + payload + seq![ESC, 0x5cu8]
}

impl Progress {
    proof fn lemma_after_concat(self, max_dcs_bytes: nat, a: Seq<u8>, b: Seq<u8>)
        ensures
            self.after_all(max_dcs_bytes, a + b) == self.after_all(max_dcs_bytes, a).after_all(
                max_dcs_bytes,
                b,
            ),
        decreases b.len(),
    {
        if b.len() == 0 {
            assert(a + b =~= a);
        } else {
            self.lemma_after_concat(max_dcs_bytes, a, b.drop_last());
            assert((a + b).drop_last() =~= a + b.drop_last());
        }
    }

    proof fn lemma_after_one(self, max_dcs_bytes: nat, byte: u8)
        ensures
            self.after_all(max_dcs_bytes, seq![byte]) == self.after(max_dcs_bytes, byte),
    {
        assert(seq![byte].drop_last() =~= Seq::<u8>::empty());
        assert(self.after_all(max_dcs_bytes, Seq::empty()) == self);
    }

    proof fn lemma_after_two(self, max_dcs_bytes: nat, a: u8, b: u8)
        ensures
            self.after_all(max_dcs_bytes, seq![a, b]) == self.after(max_dcs_bytes, a).after(
                max_dcs_bytes,
                b,
            ),
    {
        self.lemma_after_concat(max_dcs_bytes, seq![a], seq![b]);
        assert(seq![a] + seq![b] =~= seq![a, b]);
        self.lemma_after_one(max_dcs_bytes, a);
        self.after(max_dcs_bytes, a).lemma_after_one(max_dcs_bytes, b);
    }

    proof fn lemma_after_text(self, max_dcs_bytes: nat, text: Seq<u8>)
        requires
            self.state == StateView::Ground,
            !text.contains(ESC),
        ensures
            self.after_all(max_dcs_bytes, text) == (Progress {
                output: self.output + text,
                ..self
            }),
        decreases text.len(),
    {
        if text.len() == 0 {
            assert(self.output + text =~= self.output);
        } else {
            let front = text.drop_last();
            assert forall|i: int| 0 <= i < front.len() implies front[i] != ESC by {
                assert(text.contains(text[i]));
            }
            assert(text.contains(text.last()));
            self.lemma_after_text(max_dcs_bytes, front);
            assert(self.output + front + seq![text.last()] =~= self.output + text);
        }
    }

    proof fn lemma_after_parameters(self, max_dcs_bytes: nat, raw: Seq<u8>, params: Seq<u8>)
        requires
            self.state == (StateView::DcsEntry { raw }),
            is_parameter_text(params),
            raw.len() + params.len() <= max_dcs_bytes,
        ensures
            self.after_all(max_dcs_bytes, params) == (Progress {
                state: StateView::DcsEntry { raw: raw + params },
                ..self
            }),
        decreases params.len(),
    {
        if params.len() == 0 {
            assert(raw + params =~= raw);
        } else {
            let front = params.drop_last();
            assert forall|i: int| 0 <= i < front.len() implies !(0x40 <= #[trigger] front[i]
                <= 0x7e) && !is_abort(front[i]) by {
                assert(front[i] == params[i]);
            }
            self.lemma_after_parameters(max_dcs_bytes, raw, front);
            assert((raw + front).push(params.last()) =~= raw + params);
            assert(!is_abort(params[params.len() - 1]));
            assert(self.output + Seq::<u8>::empty() =~= self.output);
        }
    }

    /// Bytes inside a DCS that are no escapes are collected as they come.
    proof fn lemma_after_payload_byte(
        self,
        max_dcs_bytes: nat,
        action: u8,
        raw: Seq<u8>,
        payload: Seq<u8>,
        byte: u8,
    )
        requires
            self.state == (StateView::DcsData { action, raw, payload, pending_escape: false }),
            byte != ESC && !is_abort(byte),
            byte == ST ==> continues_char(raw, ST),
            raw.len() + 1 <= max_dcs_bytes,
        ensures
            self.after(max_dcs_bytes, byte) == (Progress {
                state: StateView::DcsData {
                    action,
                    raw: raw.push(byte),
                    payload: payload.push(byte),
                    pending_escape: false,
                },
                ..self
            }),
    {
        assert(self.output + Seq::<u8>::empty() =~= self.output);
    }

    proof fn lemma_after_payload(
        self,
        max_dcs_bytes: nat,
        action: u8,
        raw: Seq<u8>,
        payload: Seq<u8>,
        bytes: Seq<u8>,
    )
        requires
            self.state == (StateView::DcsData { action, raw, payload, pending_escape: false }),
            is_inner_behind(raw, bytes),
            !bytes.contains(ESC),
            raw.len() + bytes.len() <= max_dcs_bytes,
        ensures
            self.after_all(max_dcs_bytes, bytes) == (Progress {
                state: StateView::DcsData {
                    action,
                    raw: raw + bytes,
                    payload: payload + bytes,
                    pending_escape: false,
                },
                ..self
            }),
        decreases bytes.len(),
    {
        if bytes.len() == 0 {
            assert(raw + bytes =~= raw);
            assert(payload + bytes =~= payload);
        } else {
            let front = bytes.drop_last();
            assert forall|i: int| 0 <= i < front.len() implies !is_abort(#[trigger] front[i]) && (
            front[i] == ST ==> continues_char(raw + front.take(i), ST)) && front[i] != ESC by {
                assert(front[i] == bytes[i]);
                assert(bytes.contains(bytes[i]));
                assert(front.take(i) =~= bytes.take(i));
            }
            assert(front =~= bytes.take(bytes.len() - 1));
            self.lemma_after_payload(max_dcs_bytes, action, raw, payload, front);
            let last = bytes[bytes.len() - 1];
            assert(bytes.contains(last));
            self.after_all(max_dcs_bytes, front).lemma_after_payload_byte(
                max_dcs_bytes,
                action,
                raw + front,
                payload + front,
                last,
            );
            assert((raw + front).push(last) =~= raw + bytes);
            assert((payload + front).push(last) =~= payload + bytes);
        }
    }

    /// Inside a tmux passthrough an escape that is doubled does not end it.
    proof fn lemma_after_escaped(
        self,
        max_dcs_bytes: nat,
        raw: Seq<u8>,
        payload: Seq<u8>,
        text: Seq<u8>,
    )
        requires
            self.state == (StateView::DcsData {
                action: 0x74,
                raw,
                payload,
                pending_escape: false,
            }),
            is_inner_behind(raw, text),
            raw.len() + escape_tmux(text).len() <= max_dcs_bytes,
        ensures
            self.after_all(max_dcs_bytes, escape_tmux(text)) == (Progress {
                state: StateView::DcsData {
                    action: 0x74,
                    raw: raw + escape_tmux(text),
                    payload: payload + escape_tmux(text),
                    pending_escape: false,
                },
                ..self
            }),
        decreases text.len(),
    {
        let escaped = escape_tmux(text);
        if text.len() == 0 {
            assert(raw + escaped =~= raw);
            assert(payload + escaped =~= payload);
        } else {
            let rest = text.skip(1);
            let tail = escape_tmux(rest);
            let head = if text[0] == ESC {
                seq![ESC, ESC]
            } else {
                seq![text[0]]
            };
            assert forall|i: int| 0 <= i < rest.len() implies !is_abort(#[trigger] rest[i]) && (
            rest[i] == ST ==> continues_char((raw + head) + rest.take(i), ST)) by {
                assert(rest[i] == text[i + 1]);
                assert(raw + text.take(i + 1) =~= raw.push(text[0]) + rest.take(i));
                if text[0] == ESC {
                    lemma_continues_behind(raw.push(ESC), rest.take(i), ST);
                    lemma_continues_behind(raw + head, rest.take(i), ST);
                } else {
                    assert(raw + head =~= raw.push(text[0]));
                }
            }
            assert(!is_abort(text[0]));
            assert(raw + text.take(0) =~= raw);
            assert(escaped == head + tail);
            self.lemma_after_concat(max_dcs_bytes, head, tail);
            let next = self.after_all(max_dcs_bytes, head);
            if text[0] == ESC {
                self.lemma_after_two(max_dcs_bytes, ESC, ESC);
                assert(self.output + Seq::<u8>::empty() =~= self.output);
                assert(raw.push(ESC).push(ESC) =~= raw + head);
                assert(payload.push(ESC).push(ESC) =~= payload + head);
            } else {
                self.lemma_after_one(max_dcs_bytes, text[0]);
                self.lemma_after_payload_byte(max_dcs_bytes, 0x74, raw, payload, text[0]);
                assert(raw.push(text[0]) =~= raw + head);
                assert(payload.push(text[0]) =~= payload + head);
            }
            next.lemma_after_escaped(max_dcs_bytes, raw + head, payload + head, rest);
            assert((raw + head) + tail =~= raw + escaped);
            assert((payload + head) + tail =~= payload + escaped);
        }
    }

    /// The introducer of a DCS leads to its payload.
    proof fn lemma_after_introducer(self, max_dcs_bytes: nat, params: Seq<u8>, action: u8)
        requires
            self.state == StateView::Ground,
            is_parameter_text(params),
            0x40 <= action <= 0x7e,
            params.len() + 3 <= max_dcs_bytes,
        ensures
            self.after_all(max_dcs_bytes, (dcs_introducer() + params).push(action)) == (Progress {
                state: StateView::DcsData {
                    action,
                    raw: (dcs_introducer() + params).push(action),
                    payload: Seq::empty(),
                    pending_escape: false,
                },
                ..self
            }),
    {
        let intro = dcs_introducer();
        assert(self.output + Seq::<u8>::empty() =~= self.output);
        self.lemma_after_two(max_dcs_bytes, ESC, 0x50);
        self.lemma_after_concat(max_dcs_bytes, intro, params);
        self.after_all(max_dcs_bytes, intro).lemma_after_parameters(max_dcs_bytes, intro, params);
        assert((intro + params).push(action).drop_last() =~= intro + params);
    }

    /// The terminator of a DCS hands it on, behind the plain bytes before it.
    proof fn lemma_after_terminator(
        self,
        max_dcs_bytes: nat,
        action: u8,
        raw: Seq<u8>,
        payload: Seq<u8>,
    )
        requires
            self.state == (StateView::DcsData { action, raw, payload, pending_escape: false }),
            raw.len() + 2 <= max_dcs_bytes,
        ensures
            self.after_all(max_dcs_bytes, seq![ESC, 0x5cu8]) == (Progress {
                state: StateView::Ground,
                output: Seq::empty(),
                actions: self.actions + flushed(self.output) + seq![
                    dcs_action(action, raw + seq![ESC, 0x5cu8], payload),
                ],
            }),
    {
        self.lemma_after_two(max_dcs_bytes, ESC, 0x5c);
        assert(self.output + Seq::<u8>::empty() =~= self.output);
        assert(raw.push(ESC).push(0x5c) =~= raw + seq![ESC, 0x5cu8]);
    }
}

/// What comes of a stream of plain text, a DCS, and plain text again, given that
/// the payload leads from the introducer to the terminator.
proof fn lemma_frame(
    max_dcs_bytes: nat,
    before: Seq<u8>,
    params: Seq<u8>,
    action: u8,
    payload: Seq<u8>,
    after: Seq<u8>,
)
    requires
        !before.contains(ESC),
        !after.contains(ESC),
        is_parameter_text(params),
        0x40 <= action <= 0x7e,
        dcs_frame(params, action, payload).len() <= max_dcs_bytes,
        ({
            let head = (dcs_introducer() + params).push(action);
            let opened = Progress {
                state: StateView::DcsData {
                    action,
                    raw: head,
                    payload: Seq::empty(),
                    pending_escape: false,
                },
                output: before,
                actions: Seq::empty(),
            };
            opened.after_all(max_dcs_bytes, payload) == (Progress {
                state: StateView::DcsData {
                    action,
                    raw: head + payload,
                    payload,
                    pending_escape: false,
                },
                ..opened
            })
        }),
    ensures
        state_after(
            max_dcs_bytes,
            StateView::Ground,
            before + dcs_frame(params, action, payload) + after,
        ) == StateView::Ground,
        actions_of(
            max_dcs_bytes,
            StateView::Ground,
            before + dcs_frame(params, action, payload) + after,
        ) == flushed(before) + seq![
            dcs_action(action, dcs_frame(params, action, payload), payload),
        ] + flushed(after),
{
    let start = at(StateView::Ground);
    let head = (dcs_introducer() + params).push(action);
    let end = seq![ESC, 0x5cu8];
    let frame = dcs_frame(params, action, payload);
    start.lemma_after_text(max_dcs_bytes, before);
    assert(start.output + before =~= before);
    let text = start.after_all(max_dcs_bytes, before);
    text.lemma_after_introducer(max_dcs_bytes, params, action);
    let opened = text.after_all(max_dcs_bytes, head);
    let collected = opened.after_all(max_dcs_bytes, payload);
    collected.lemma_after_terminator(max_dcs_bytes, action, head + payload, payload);
    let closed = collected.after_all(max_dcs_bytes, end);
    closed.lemma_after_text(max_dcs_bytes, after);
    assert(closed.output + after =~= after);
    text.lemma_after_concat(max_dcs_bytes, head, payload);
    text.lemma_after_concat(max_dcs_bytes, head + payload, end);
    start.lemma_after_concat(max_dcs_bytes, before, frame);
    start.lemma_after_concat(max_dcs_bytes, before + frame, after);
    assert(closed.actions =~= flushed(before) + seq![dcs_action(action, frame, payload)]);
}

/// Law: a SIXEL picture in its frame comes out as its payload, and the text
/// before and behind it as it is.
pub proof fn law_a_picture_is_taken_out(
    max_dcs_bytes: nat,
    before: Seq<u8>,
    params: Seq<u8>,
    payload: Seq<u8>,
    after: Seq<u8>,
)
    requires
        !before.contains(ESC),
        !after.contains(ESC),
        is_parameter_text(params),
        is_inner_text(payload),
        !payload.contains(ESC),
        dcs_frame(params, 0x71, payload).len() <= max_dcs_bytes,
    ensures
        state_after(
            max_dcs_bytes,
            StateView::Ground,
            before + dcs_frame(params, 0x71, payload) + after,
        ) == StateView::Ground,
        actions_of(
            max_dcs_bytes,
            StateView::Ground,
            before + dcs_frame(params, 0x71, payload) + after,
        ) == flushed(before) + seq![ActionView::Sixel(payload)] + flushed(after),
{
    let head = (dcs_introducer() + params).push(0x71);
    let opened = Progress {
        state: StateView::DcsData {
            action: 0x71,
            raw: head,
            payload: Seq::empty(),
            pending_escape: false,
        },
        output: before,
        actions: Seq::empty(),
    };
    lemma_inner_behind(head, payload);
    opened.lemma_after_payload(max_dcs_bytes, 0x71, head, Seq::empty(), payload);
    assert(Seq::<u8>::empty() + payload =~= payload);
    lemma_frame(max_dcs_bytes, before, params, 0x71, payload, after);
}

/// Law: a DCS of another kind is handed on whole, and the text before and behind
/// it as it is.
pub proof fn law_another_dcs_is_handed_on(
    max_dcs_bytes: nat,
    before: Seq<u8>,
    params: Seq<u8>,
    action: u8,
    payload: Seq<u8>,
    after: Seq<u8>,
)
    requires
        !before.contains(ESC),
        !after.contains(ESC),
        is_parameter_text(params),
        0x40 <= action <= 0x7e && action != 0x71 && action != 0x74,
        is_inner_text(payload),
        !payload.contains(ESC),
        dcs_frame(params, action, payload).len() <= max_dcs_bytes,
    ensures
        state_after(
            max_dcs_bytes,
            StateView::Ground,
            before + dcs_frame(params, action, payload) + after,
        ) == StateView::Ground,
        actions_of(
            max_dcs_bytes,
            StateView::Ground,
            before + dcs_frame(params, action, payload) + after,
        ) == flushed(before) + seq![
            ActionView::UnknownDcs(dcs_frame(params, action, payload)),
        ] + flushed(after),
{
    let head = (dcs_introducer() + params).push(action);
    let opened = Progress {
        state: StateView::DcsData {
            action,
            raw: head,
            payload: Seq::empty(),
            pending_escape: false,
        },
        output: before,
        actions: Seq::empty(),
    };
    lemma_inner_behind(head, payload);
    opened.lemma_after_payload(max_dcs_bytes, action, head, Seq::empty(), payload);
    assert(Seq::<u8>::empty() + payload =~= payload);
    lemma_frame(max_dcs_bytes, before, params, action, payload, after);
}

/// Law: what is wrapped for tmux, with its escapes doubled, comes out whole:
/// neither the terminator of a picture inside nor a character ends the wrapping.
pub proof fn law_a_wrapped_text_is_taken_out(
    max_dcs_bytes: nat,
    before: Seq<u8>,
    inner: Seq<u8>,
    after: Seq<u8>,
)
    requires
        !before.contains(ESC),
        !after.contains(ESC),
        is_inner_text(inner),
        dcs_frame(Seq::empty(), 0x74, tmux_prefix() + escape_tmux(inner)).len() <= max_dcs_bytes,
    ensures
        ({
            let payload = tmux_prefix() + escape_tmux(inner);
            let raw = dcs_frame(Seq::empty(), 0x74, payload);
            &&& state_after(max_dcs_bytes, StateView::Ground, before + raw + after)
                == StateView::Ground
            &&& actions_of(max_dcs_bytes, StateView::Ground, before + raw + after) == flushed(
                before,
            ) + seq![ActionView::TmuxPassthrough { payload, raw }] + flushed(after)
        }),
{
    let payload = tmux_prefix() + escape_tmux(inner);
    let head = (dcs_introducer() + Seq::<u8>::empty()).push(0x74);
    let opened = Progress {
        state: StateView::DcsData {
            action: 0x74,
            raw: head,
            payload: Seq::empty(),
            pending_escape: false,
        },
        output: before,
        actions: Seq::empty(),
    };
    assert(!tmux_prefix().contains(ESC));
    opened.lemma_after_payload(max_dcs_bytes, 0x74, head, Seq::empty(), tmux_prefix());
    assert(Seq::<u8>::empty() + tmux_prefix() =~= tmux_prefix());
    let named = opened.after_all(max_dcs_bytes, tmux_prefix());
    lemma_inner_behind(head + tmux_prefix(), inner);
    named.lemma_after_escaped(max_dcs_bytes, head + tmux_prefix(), tmux_prefix(), inner);
    opened.lemma_after_concat(max_dcs_bytes, tmux_prefix(), escape_tmux(inner));
    assert((head + tmux_prefix()) + escape_tmux(inner) =~= head + payload);
    lemma_frame(max_dcs_bytes, before, Seq::empty(), 0x74, payload, after);
}

} // verus!
