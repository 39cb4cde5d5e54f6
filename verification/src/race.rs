//! The race state machine: discrete input events in, typed-buffer
//! mutations, mistake counts, render bytes and completion, abort or restart
//! outcomes out.
use vstd::prelude::*;

use crate::char_iter_from_to_type;
use crate::flat_chars;
use crate::render::race::Renderer;

verus! {

/// Why a race session ended without a result.
#[derive(Clone, Copy, Debug, PartialEq, Eq, Structural)]
pub enum RaceError {
    Aborted,
    Restart,
}

/// The immutable result record of one completed race, consumed by the
/// summary screen. The duration is in milliseconds.
#[derive(Clone, Copy, Debug, PartialEq, Eq, Structural)]
pub struct RaceInfo {
    pub words: usize,
    pub characters: usize,
    pub duration: u64,
    pub mistakes: usize,
}

/// The modifier set attached to a key press. Only a plain or shift-only
/// press types a character.
#[derive(Clone, Copy, Debug, PartialEq, Eq, Structural)]
pub enum Modifiers {
    Plain,
    Shift,
    Control,
    Other,
}

/// What key a key press carries.
#[derive(Clone, Copy, Debug, PartialEq, Eq, Structural)]
pub enum KeyCode {
    Esc,
    Enter,
    Char(char),
    Other,
}

/// One discrete event consumed by the race: a key press, a viewport
/// resize in character cells, a timer tick, a non-fatal read error of the
/// input stream, or any other event shape.
#[derive(Clone, Copy, Debug, PartialEq, Eq, Structural)]
pub enum TermEvent {
    Key(KeyCode, Modifiers),
    Resize(u16, u16),
    Timer,
    ReadError,
    Other,
}

/// Where the race stands. `Completed`, `Aborted` and `RestartRequested`
/// are terminal for the session.
#[derive(Clone, Copy, Debug, PartialEq, Eq, Structural)]
pub enum RaceStatus {
    NotStarted,
    Running,
    Completed,
    Aborted,
    RestartRequested,
}

/// What the caller must do after one event is handled: keep looping,
/// record the start timestamp and keep looping, surface the result, or
/// unwind with an abort or restart.
#[derive(Clone, Copy, Debug, PartialEq, Eq, Structural)]
pub enum RaceOutcome {
    Continue,
    ClockStarted,
    Finished(RaceInfo),
    Ended(RaceError),
}

/// What the summary screen's key wait decides: leave the program, start a
/// new race, or keep waiting.
#[derive(Clone, Copy, Debug, PartialEq, Eq, Structural)]
pub enum MenuChoice {
    Leave,
    PlayAgain,
    Wait,
}

/// Decides the summary screen's next step from one input event: escape
/// leaves, enter starts a new race, anything else keeps waiting.
pub fn menu_choice(ev: TermEvent) -> (r: MenuChoice)
    ensures
        (ev matches TermEvent::Key(KeyCode::Esc, _)) ==> r is Leave,
        (ev matches TermEvent::Key(KeyCode::Enter, _)) ==> r is PlayAgain,
        (!(ev matches TermEvent::Key(KeyCode::Esc, _)) && !(ev matches TermEvent::Key(
            KeyCode::Enter,
            _,
        ))) ==> r is Wait,
{
    match ev {
        TermEvent::Key(KeyCode::Esc, _) => MenuChoice::Leave,
        TermEvent::Key(KeyCode::Enter, _) => MenuChoice::PlayAgain,
        _ => MenuChoice::Wait,
    }
}

/// The character an event types, when it is a printable key press with no
/// modifier or shift only.
pub open spec fn typing_char(ev: TermEvent) -> Option<char> {
    match ev {
        TermEvent::Key(KeyCode::Char(c), Modifiers::Plain) => Some(c),
        TermEvent::Key(KeyCode::Char(c), Modifiers::Shift) => Some(c),
        _ => None,
    }
}

/// One race session: the typed buffer so far, the mistake count, the
/// status, and the renderer holding the word sequence, layout and cursor.
pub struct Race {
    pub expected: Vec<char>,
    pub typed: Vec<char>,
    pub mistakes: usize,
    pub status: RaceStatus,
    pub renderer: Renderer,
}

impl Race {
    /// The total number of expected characters: the sum of the word lengths
    /// plus one separator per adjacent word pair.
    pub open spec fn total(self) -> int {
        self.expected@.len() as int
    }

    /// Internal consistency: the expected stream is the flattened word
    /// sequence, the renderer's cursor stands exactly at the typed count,
    /// the typed buffer never outgrows the expected stream, the mistake
    /// count never exceeds the typed count, and the race is complete
    /// exactly when every expected character has been typed.
    pub open spec fn wf(self) -> bool {
        &&& self.renderer.wf()
        &&& self.expected@ == self.renderer.flat()
        &&& self.typed@.len() <= self.total()
        &&& self.renderer.typed_count() == self.typed@.len()
        &&& self.mistakes <= self.typed@.len()
        &&& (self.status is Completed <==> self.typed@.len() == self.total())
        &&& (self.status is NotStarted ==> self.typed@.len() == 0)
    }

    /// Starts a race session over a non-empty word sequence on a `w` by
    /// `h` terminal: empty typed buffer, no mistakes, clock not started.
    pub fn new(words: Vec<String>, w: u16, h: u16) -> (r: Race)
        requires
            words.len() > 0,
            flat_chars(words.deep_view()).len() + 0x10000 <= usize::MAX,
            flat_chars(words.deep_view()).len() > 0,
        ensures
            r.wf(),
            r.status is NotStarted,
            r.typed@.len() == 0,
            r.mistakes == 0,
            r.renderer.to_type == words,
            r.expected@ == flat_chars(words.deep_view()),
    {
        let expected = char_iter_from_to_type(&words);
        let renderer = Renderer::new(words, w as usize, h as usize);
        Race { expected, typed: Vec::new(), mistakes: 0, status: RaceStatus::NotStarted, renderer }
    }

    /// Consumes one input event against the current race state, in
    /// priority order: escape aborts at once; the control-modified restart
    /// key discards progress; a resize recomputes layout and cursor and
    /// yields a full redraw; a printable keystroke starts the clock on
    /// first use, grows the typed buffer, counts a mistake exactly when it
    /// mismatches the next expected character, and completes the race
    /// exactly when the expected stream is exhausted; a timer tick yields
    /// only a time-readout redraw. All other event shapes are ignored. The
    /// mistake count never decreases, and the returned bytes are what the
    /// terminal must be shown.
    #[verifier::rlimit(100)]
    #[verifier::spinoff_prover]
    pub fn handle_event(&mut self, ev: TermEvent, elapsed_ms: u64) -> (r: (Vec<u8>, RaceOutcome))
        requires
            old(self).wf(),
            old(self).status is NotStarted || old(self).status is Running,
        ensures
            final(self).wf(),
            final(self).renderer.to_type == old(self).renderer.to_type,
            final(self).expected == old(self).expected,
            final(self).mistakes >= old(self).mistakes,
            final(self).typed@.len() >= old(self).typed@.len(),
            ev matches TermEvent::Key(KeyCode::Esc, _) ==> {
                &&& final(self).status is Aborted
                &&& r.1 == RaceOutcome::Ended(RaceError::Aborted)
                &&& r.0@ == Seq::<u8>::empty()
                &&& final(self).typed == old(self).typed
                &&& final(self).mistakes == old(self).mistakes
            },
            ev matches TermEvent::Key(KeyCode::Char('r'), Modifiers::Control) ==> {
                &&& final(self).status is RestartRequested
                &&& r.1 == RaceOutcome::Ended(RaceError::Restart)
                &&& r.0@ == Seq::<u8>::empty()
                &&& final(self).typed == old(self).typed
                &&& final(self).mistakes == old(self).mistakes
            },
            ev matches TermEvent::Resize(w, h) ==> {
                &&& final(self).status == old(self).status
                &&& final(self).typed == old(self).typed
                &&& final(self).mistakes == old(self).mistakes
                &&& final(self).renderer.cursor.scroll == 0
                &&& final(self).renderer.typed_count() == old(self).renderer.typed_count()
                &&& r.1 == RaceOutcome::Continue
                &&& r.0@ == final(self).renderer.spec_render_full(
                    old(self).typed@,
                    elapsed_ms as nat,
                )
            },
            typing_char(ev) matches Some(c) ==> {
                &&& final(self).typed@ == old(self).typed@.push(c)
                &&& final(self).mistakes == old(self).mistakes + (
                if c == old(self).expected@[old(self).typed@.len() as int] {
                    0int
                } else {
                    1int
                })
                &&& (r.1 is Finished <==> final(self).typed@.len() == old(self).total())
                &&& (final(self).status is Completed <==> final(self).typed@.len()
                    == old(self).total())
                &&& (r.1 matches RaceOutcome::Finished(info) ==> info == (RaceInfo {
                    words: old(self).renderer.to_type.len(),
                    characters: final(self).typed@.len() as usize,
                    duration: elapsed_ms,
                    mistakes: final(self).mistakes,
                }))
                &&& (final(self).typed@.len() < old(self).total() ==> final(self).status
                    is Running)
                &&& (r.1 is ClockStarted <==> (old(self).status is NotStarted
                    && final(self).typed@.len() < old(self).total()))
                &&& r.0@ == old(self).renderer.spec_char_typed(
                    c,
                    old(self).typed@,
                    final(self).renderer,
                )
            },
            ev is Timer ==> {
                &&& final(self).status == old(self).status
                &&& final(self).typed == old(self).typed
                &&& final(self).mistakes == old(self).mistakes
                &&& r.1 == RaceOutcome::Continue
                &&& r.0@ == old(self).renderer.spec_render_time(elapsed_ms as nat)
            },
            (typing_char(ev) is None && !(ev matches TermEvent::Key(KeyCode::Esc, _)) && !(
            ev matches TermEvent::Key(KeyCode::Char('r'), Modifiers::Control)) && !(
            ev matches TermEvent::Resize(_, _)) && !(ev is Timer)) ==> {
                &&& final(self).status == old(self).status
                &&& final(self).typed == old(self).typed
                &&& final(self).mistakes == old(self).mistakes
                &&& r.1 == RaceOutcome::Continue
                &&& r.0@ == Seq::<u8>::empty()
            },
    {
        match ev {
            TermEvent::Key(KeyCode::Esc, _) => {
                self.status = RaceStatus::Aborted;
                (Vec::new(), RaceOutcome::Ended(RaceError::Aborted))
            },
            TermEvent::Key(KeyCode::Char(c), m) => {
                if (matches!(m, Modifiers::Control)) && c == 'r' {
                    self.status = RaceStatus::RestartRequested;
                    return (Vec::new(), RaceOutcome::Ended(RaceError::Restart));
                }
                if !(matches!(m, Modifiers::Plain) || matches!(m, Modifiers::Shift)) {
                    return (Vec::new(), RaceOutcome::Continue);
                }
                let buf = self.renderer.render_char_typed(c, &self.typed);
                let expected_next = self.expected[self.typed.len()];
                self.typed.push(c);
                if c != expected_next {
                    self.mistakes = self.mistakes + 1;
                }
                if self.typed.len() == self.expected.len() {
                    self.status = RaceStatus::Completed;
                    let info = RaceInfo {
                        words: self.renderer.to_type.len(),
                        characters: self.typed.len(),
                        duration: elapsed_ms,
                        mistakes: self.mistakes,
                    };
                    (buf, RaceOutcome::Finished(info))
                } else {
                    let started = matches!(self.status, RaceStatus::NotStarted);
                    self.status = RaceStatus::Running;
                    if started {
                        (buf, RaceOutcome::ClockStarted)
                    } else {
                        (buf, RaceOutcome::Continue)
                    }
                }
            },
            TermEvent::Resize(w, h) => {
                self.renderer.resize(w as usize, h as usize);
                let buf = self.renderer.render_full(&self.typed, elapsed_ms);
                (buf, RaceOutcome::Continue)
            },
            TermEvent::Timer => {
                let buf = self.renderer.render_time(elapsed_ms);
                (buf, RaceOutcome::Continue)
            },
            _ => (Vec::new(), RaceOutcome::Continue),
        }
    }
}

} // verus!
