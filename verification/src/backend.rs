//! The playback: tuning, key and tempo, the notes that sound, and what is
//! sent to the MIDI output for each command.

use vstd::prelude::*;
use crate::command::{Command, MidiMessage, PitchSpec, NOTE_OFF, NOTE_ON};

verus! {

/// The tuning that a playback starts with.
pub const DEFAULT_TUNING: u16 = 12;

/// The tempo that a playback starts with, in beats per minute.
pub const DEFAULT_TEMPO: u16 = 120;

/// The lines per beat that a playback starts with.
pub const DEFAULT_LINES_PER_BEAT: u16 = 4;

/// The pitch of the neutral octave's degree 0 in the key 0.
pub const MIDDLE: u8 = 60;

/// The highest MIDI pitch.
pub const HIGHEST: u8 = 127;

/// The velocity of every note-off message.
pub const RELEASE_VELOCITY: u8 = 64;

/// The milliseconds of a minute.
pub const MINUTE_MILLIS: u32 = 60_000;

/// How long to sleep when nothing is queued, in milliseconds.
pub const IDLE_MILLIS: u64 = 8;

/// A note that sounds: its channel and what it was played as.
#[derive(Debug, Clone, Copy, PartialEq, Eq, Structural)]
pub struct ActiveNote {
    pub channel: u8,
    pub note: PitchSpec,
}

/// What the playback does next, once the messages of a turn are sent.
#[derive(Debug, Clone, Copy, PartialEq, Eq, Structural)]
pub enum Pause {
    /// Nothing is queued: sleep `IDLE_MILLIS`, then hand over with `run`
    /// all the commands that have arrived.
    Idle,
    /// A wait: sleep this many milliseconds, then hand over with `resume`
    /// the next command, if one has arrived.
    Wait(u64),
}

/// The playback as a value: its settings and the notes that sound, in the
/// order in which they began.
pub struct Playback {
    pub tuning: u16,
    pub key: i16,
    pub tempo: u16,
    pub lines_per_beat: u16,
    pub notes: Seq<ActiveNote>,
}

/// What a turn of the playback comes to: its state, the messages to send,
/// what to do next, and the commands still queued.
pub struct Outcome {
    pub state: Playback,
    pub messages: Seq<MidiMessage>,
    pub pause: Pause,
    pub queue: Seq<Command>,
}

/// A pitch that MIDI has.
pub open spec fn audible(pitch: int) -> bool {
    0 <= pitch <= HIGHEST
}

/// `notes` without every entry equal to `gone`.
pub open spec fn without(notes: Seq<ActiveNote>, gone: ActiveNote) -> Seq<ActiveNote> {
    notes.filter(differs(gone))
}

/// The notes other than `gone`.
pub open spec fn differs(gone: ActiveNote) -> spec_fn(ActiveNote) -> bool {
    |n: ActiveNote| n != gone
}

impl Playback {
    /// The settings are positive, and every note that sounds has a channel
    /// that a status byte has room for.
    pub open spec fn wf(self) -> bool {
        &&& self.tuning > 0
        &&& self.tempo > 0
        &&& self.lines_per_beat > 0
        &&& forall|i: int|
            0 <= i < self.notes.len() ==> NOTE_ON + (#[trigger] self.notes[i]).channel <= u8::MAX
    }

    /// The pitch that a note resolves to.
    pub open spec fn pitch(self, note: PitchSpec) -> int {
        MIDDLE + self.key + self.tuning * note.octave + note.degree
    }

    /// The milliseconds that a number of ticks lasts.
    pub open spec fn millis(self, ticks: u16) -> int {
        (MINUTE_MILLIS as int / (self.tempo * self.lines_per_beat)) * ticks
    }

    /// The note-off message for one note, if its pitch is audible.
    pub open spec fn release(self, n: ActiveNote) -> Option<MidiMessage> {
        if audible(self.pitch(n.note)) {
            Some(
                MidiMessage {
                    status: (NOTE_OFF + n.channel) as u8,
                    data1: self.pitch(n.note) as u8,
                    data2: RELEASE_VELOCITY,
                },
            )
        } else {
            None
        }
    }

    /// The note-off messages for all that sounds, in order: one for each
    /// note whose pitch is audible.
    pub open spec fn releases(self) -> Seq<MidiMessage> {
        self.notes.filter_map(self.releaser())
    }

    /// `release`, as a function of the note.
    pub open spec fn releaser(self) -> spec_fn(ActiveNote) -> Option<MidiMessage> {
        |n: ActiveNote| self.release(n)
    }

    /// A note begins. With an audible pitch it is recorded and its message
    /// is sent; else nothing happens.
    pub open spec fn note_on(self, channel: u8, note: PitchSpec, velocity: u8) -> (
        Playback,
        Option<MidiMessage>,
    ) {
        if audible(self.pitch(note)) {
            (
                Playback { notes: self.notes.push(ActiveNote { channel, note }), ..self },
                Some(
                    MidiMessage {
                        status: (NOTE_ON + channel) as u8,
                        data1: self.pitch(note) as u8,
                        data2: velocity,
                    },
                ),
            )
        } else {
            (self, None)
        }
    }

    /// A note ends. With an audible pitch every record of it is removed and
    /// its message is sent; else nothing happens.
    pub open spec fn note_off(self, channel: u8, note: PitchSpec, velocity: u8) -> (
        Playback,
        Option<MidiMessage>,
    ) {
        if audible(self.pitch(note)) {
            (
                Playback { notes: without(self.notes, ActiveNote { channel, note }), ..self },
                Some(
                    MidiMessage {
                        status: (NOTE_OFF + channel) as u8,
                        data1: self.pitch(note) as u8,
                        data2: velocity,
                    },
                ),
            )
        } else {
            (self, None)
        }
    }

    /// All notes end: nothing sounds any more.
    pub open spec fn all_notes_off(self) -> (Playback, Seq<MidiMessage>) {
        (Playback { notes: Seq::empty(), ..self }, self.releases())
    }

    /// What one command does, and what is sent for it. A setting of zero
    /// for the tuning, the tempo or the lines per beat is not taken; a wait
    /// does nothing here.
    pub open spec fn apply(self, command: Command) -> (Playback, Seq<MidiMessage>) {
        match command {
            Command::NoteOn(channel, note, velocity) => {
                let (state, message) = self.note_on(channel, note, velocity);
                (state, sent(message))
            },
            Command::NoteOff(channel, note) => {
                let (state, message) = self.note_off(channel, note, RELEASE_VELOCITY);
                (state, sent(message))
            },
            Command::SetKeyOffset(key) => (Playback { key, ..self }, Seq::empty()),
            Command::SetTempo(tempo) => if tempo > 0 {
                (Playback { tempo, ..self }, Seq::empty())
            } else {
                (self, Seq::empty())
            },
            Command::SetLinesPerBeat(lines_per_beat) => if lines_per_beat > 0 {
                (Playback { lines_per_beat, ..self }, Seq::empty())
            } else {
                (self, Seq::empty())
            },
            Command::SetTuning(tuning) => if tuning > 0 {
                (Playback { tuning, ..self }, Seq::empty())
            } else {
                (self, Seq::empty())
            },
            Command::Stop => self.all_notes_off(),
            Command::Wait(_) => (self, Seq::empty()),
        }
    }

    /// The queued commands are applied in order up to the first wait, which
    /// stays behind as the pause; without one the playback falls idle.
    pub open spec fn play(self, queue: Seq<Command>) -> Outcome
        decreases queue.len(),
    {
        if queue.len() == 0 {
            Outcome { state: self, messages: Seq::empty(), pause: Pause::Idle, queue }
        } else {
            match queue[0] {
                Command::Wait(ticks) => Outcome {
                    state: self,
                    messages: Seq::empty(),
                    pause: Pause::Wait(self.millis(ticks) as u64),
                    queue: queue.drop_first(),
                },
                command => {
                    let (state, messages) = self.apply(command);
                    let then = state.play(queue.drop_first());
                    Outcome { messages: messages + then.messages, ..then }
                },
            }
        }
    }

    /// After a wait, with the one command that was taken up, if any: a stop
    /// ends all notes and drops what was queued; any other command is
    /// applied, and the queue is played on.
    pub open spec fn wake(self, taken: Option<Command>, queue: Seq<Command>) -> Outcome {
        match taken {
            Some(Command::Stop) => Outcome {
                state: self.all_notes_off().0,
                messages: self.all_notes_off().1,
                pause: Pause::Idle,
                queue: Seq::empty(),
            },
            Some(command) => {
                let (state, messages) = self.apply(command);
                let then = state.play(queue);
                Outcome { messages: messages + then.messages, ..then }
            },
            None => self.play(queue),
        }
    }
}

/// The messages that are sent for one that may be missing.
pub open spec fn sent(message: Option<MidiMessage>) -> Seq<MidiMessage> {
    match message {
        Some(m) => seq![m],
        None => Seq::empty(),
    }
}

/// The messages of one turn of the playback, and what to do once they are
/// sent.
pub struct Turn {
    pub messages: Vec<MidiMessage>,
    pub pause: Pause,
}

/// The playback state and the commands that it has taken but not yet
/// applied.
pub struct Backend {
    tuning: u16,
    key: i16,
    tempo: u16,
    lines_per_beat: u16,
    notes: Vec<ActiveNote>,
    queue: Vec<Command>,
    head: usize,
}

impl View for Backend {
    type V = Playback;

    closed spec fn view(&self) -> Playback {
        Playback {
            tuning: self.tuning,
            key: self.key,
            tempo: self.tempo,
            lines_per_beat: self.lines_per_beat,
            notes: self.notes@,
        }
    }
}

/// Every command of `commands` fits.
pub open spec fn all_fit(commands: Seq<Command>) -> bool {
    forall|i: int| 0 <= i < commands.len() ==> (#[trigger] commands[i]).fits()
}

impl Backend {
    /// The commands that were taken and are not yet applied, in order.
    pub closed spec fn queued(&self) -> Seq<Command> {
        self.queue@.skip(self.head as int)
    }

    /// The state is well formed, and every queued command fits.
    pub closed spec fn wf(&self) -> bool {
        &&& self@.wf()
        &&& self.head <= self.queue.len()
        &&& all_fit(self.queued())
    }

    /// What is well formed has a well-formed state, and what it has queued
    /// fits.
    pub proof fn lemma_wf(&self)
        requires
            self.wf(),
        ensures
            self@.wf(),
            all_fit(self.queued()),
    {
    }

    /// A playback with the default settings, in which nothing sounds and
    /// nothing is queued.
    pub fn new() -> (backend: Backend)
        ensures
            backend.wf(),
            backend.queued() == Seq::<Command>::empty(),
            backend@ == (Playback {
                tuning: DEFAULT_TUNING,
                key: 0,
                tempo: DEFAULT_TEMPO,
                lines_per_beat: DEFAULT_LINES_PER_BEAT,
                notes: Seq::empty(),
            }),
    {
        let backend = Backend {
            tuning: DEFAULT_TUNING,
            key: 0,
            tempo: DEFAULT_TEMPO,
            lines_per_beat: DEFAULT_LINES_PER_BEAT,
            notes: Vec::new(),
            queue: Vec::new(),
            head: 0,
        };
        assert(backend.queued() =~= Seq::<Command>::empty());
        backend
    }

    /// A playback that starts with the given tuning, which must be positive,
    /// and the default settings otherwise.
    pub fn with_tuning(tuning: u16) -> (made: Option<Backend>)
        ensures
            made is Some <==> tuning > 0,
            made matches Some(backend) ==> {
                &&& backend.wf()
                &&& backend.queued() == Seq::<Command>::empty()
                &&& backend@ == (Playback {
                    tuning,
                    key: 0,
                    tempo: DEFAULT_TEMPO,
                    lines_per_beat: DEFAULT_LINES_PER_BEAT,
                    notes: Seq::empty(),
                })
            },
    {
        if tuning == 0 {
            return None;
        }
        let mut backend = Backend::new();
        backend.tuning = tuning;
        Some(backend)
    }

    /// The pitch that a note resolves to.
    pub fn pitch(&self, note: PitchSpec) -> (pitch: i32)
        ensures
            pitch == self@.pitch(note),
    {
        let tuning = self.tuning as i32;
        let octave = note.octave as i32;
        assert(-128 * 65535 <= tuning * octave <= 127 * 65535) by (nonlinear_arith)
            requires
                0 <= tuning <= 65535,
                -128 <= octave <= 127,
        ;
        MIDDLE as i32 + self.key as i32 + tuning * octave + note.degree as i32
    }

    /// The milliseconds that a number of ticks lasts.
    pub fn wait_millis(&self, ticks: u16) -> (millis: u64)
        requires
            self.wf(),
        ensures
            millis == self@.millis(ticks),
    {
        let tempo = self.tempo as u32;
        let lines = self.lines_per_beat as u32;
        assert(0 < tempo * lines <= 65535 * 65535) by (nonlinear_arith)
            requires
                0 < tempo <= 65535,
                0 < lines <= 65535,
        ;
        let tick: u64 = (MINUTE_MILLIS / (tempo * lines)) as u64;
        assert(tick <= 60_000) by (nonlinear_arith)
            requires
                tick == 60_000int / (tempo * lines) as int,
                0 < tempo * lines,
        ;
        assert(tick * ticks <= 60_000 * 65535) by (nonlinear_arith)
            requires
                0 <= tick <= 60_000,
                0 <= ticks <= 65535,
        ;
        tick * (ticks as u64)
    }

    /// A note begins: with an audible pitch it is recorded as sounding and
    /// its note-on message is returned; else nothing happens.
    pub fn note_on(&mut self, ch: u8, note: PitchSpec, velocity: u8) -> (message: Option<
        MidiMessage,
    >)
        requires
            old(self).wf(),
            NOTE_ON + ch <= u8::MAX,
        ensures
            final(self).wf(),
            final(self).queued() == old(self).queued(),
            final(self)@ == old(self)@.note_on(ch, note, velocity).0,
            message == old(self)@.note_on(ch, note, velocity).1,
    {
        let key = self.pitch(note);
        if key <= HIGHEST as i32 && key >= 0 {
            self.notes.push(ActiveNote { channel: ch, note });
            Some(MidiMessage { status: NOTE_ON + ch, data1: key as u8, data2: velocity })
        } else {
            None
        }
    }

    /// A note ends: with an audible pitch every record of it is removed and
    /// its note-off message is returned; else nothing happens.
    pub fn note_off(&mut self, ch: u8, note: PitchSpec, velocity: u8) -> (message: Option<
        MidiMessage,
    >)
        requires
            old(self).wf(),
            NOTE_OFF + ch <= u8::MAX,
        ensures
            final(self).wf(),
            final(self).queued() == old(self).queued(),
            final(self)@ == old(self)@.note_off(ch, note, velocity).0,
            message == old(self)@.note_off(ch, note, velocity).1,
    {
        let key = self.pitch(note);
        if key <= HIGHEST as i32 && key >= 0 {
            let gone = ActiveNote { channel: ch, note };
            let mut kept: Vec<ActiveNote> = Vec::new();
            let mut i: usize = 0;
            assert(self.notes@.take(0) =~= Seq::<ActiveNote>::empty());
            assert(without(Seq::<ActiveNote>::empty(), gone) =~= Seq::<ActiveNote>::empty()) by {
                reveal(Seq::filter);
            }
            while i < self.notes.len()
                invariant
                    i <= self.notes.len(),
                    kept@ == without(self.notes@.take(i as int), gone),
                    forall|k: int|
                        0 <= k < kept.len() ==> NOTE_ON + (#[trigger] kept@[k]).channel <= u8::MAX,
                    forall|k: int|
                        0 <= k < self.notes.len() ==> NOTE_ON + (#[trigger] self.notes@[k]).channel
                            <= u8::MAX,
                decreases self.notes.len() - i,
            {
                let n = self.notes[i];
                proof {
                    assert(self.notes@.take(i + 1) =~= self.notes@.take(i as int).push(n));
                    self.notes@.take(i as int).lemma_filter_push(n, differs(gone));
                }
                if n != gone {
                    kept.push(n);
                }
                i += 1;
            }
            assert(self.notes@.take(i as int) =~= self.notes@);
            self.notes = kept;
            Some(MidiMessage { status: NOTE_OFF + ch, data1: key as u8, data2: velocity })
        } else {
            None
        }
    }

    /// All notes end: a note-off message is returned for each note that
    /// sounds and whose pitch is audible, in the order in which they began,
    /// and nothing sounds any more.
    pub fn all_notes_off(&mut self) -> (messages: Vec<MidiMessage>)
        requires
            old(self).wf(),
        ensures
            final(self).wf(),
            final(self).queued() == old(self).queued(),
            final(self)@ == old(self)@.all_notes_off().0,
            messages@ == old(self)@.all_notes_off().1,
    {
        let mut messages: Vec<MidiMessage> = Vec::new();
        let mut i: usize = 0;
        assert(self.notes@.take(0) =~= Seq::<ActiveNote>::empty());
        while i < self.notes.len()
            invariant
                i <= self.notes.len(),
                self.wf(),
                messages@ == self.notes@.take(i as int).filter_map(self@.releaser()),
            decreases self.notes.len() - i,
        {
            let n = self.notes[i];
            proof {
                self.notes@.lemma_filter_map_take_succ(self@.releaser(), i as int);
                assert(NOTE_ON + self@.notes[i as int].channel <= u8::MAX);
            }
            let key = self.pitch(n.note);
            if key <= HIGHEST as i32 && key >= 0 {
                messages.push(
                    MidiMessage {
                        status: NOTE_OFF + n.channel,
                        data1: key as u8,
                        data2: RELEASE_VELOCITY,
                    },
                );
            }
            i += 1;
        }
        assert(self.notes@.take(i as int) =~= self.notes@);
        self.notes = Vec::new();
        messages
    }

    /// Applies one command and returns the messages to send for it. A
    /// setting of zero for the tuning, the tempo or the lines per beat is
    /// not taken; a wait does nothing here.
    pub fn run_msg(&mut self, msg: Command) -> (messages: Vec<MidiMessage>)
        requires
            old(self).wf(),
            msg.fits(),
        ensures
            final(self).wf(),
            final(self).queued() == old(self).queued(),
            final(self)@ == old(self)@.apply(msg).0,
            messages@ == old(self)@.apply(msg).1,
    {
        let mut messages: Vec<MidiMessage> = Vec::new();
        match msg {
            Command::NoteOn(ch, note, vel) => {
                if let Some(message) = self.note_on(ch, note, vel) {
                    messages.push(message);
                }
            },
            Command::NoteOff(ch, note) => {
                if let Some(message) = self.note_off(ch, note, RELEASE_VELOCITY) {
                    messages.push(message);
                }
            },
            Command::SetKeyOffset(key) => {
                self.key = key;
            },
            Command::SetTempo(tempo) => {
                if tempo > 0 {
                    self.tempo = tempo;
                }
            },
            Command::SetLinesPerBeat(lines_per_beat) => {
                if lines_per_beat > 0 {
                    self.lines_per_beat = lines_per_beat;
                }
            },
            Command::SetTuning(tuning) => {
                if tuning > 0 {
                    self.tuning = tuning;
                }
            },
            Command::Stop => {
                messages = self.all_notes_off();
            },
            Command::Wait(_) => {},
        }
        messages
    }

    /// The playback and a turn are what an outcome says.
    pub open spec fn reached(&self, turn: Turn, outcome: Outcome) -> bool {
        &&& self@ == outcome.state
        &&& self.queued() == outcome.queue
        &&& turn.messages@ == outcome.messages
        &&& turn.pause == outcome.pause
    }

    /// Plays on what is queued, after `messages`.
    #[verifier::loop_isolation(false)]
    fn advance(&mut self, messages: Vec<MidiMessage>) -> (turn: Turn)
        requires
            old(self).wf(),
        ensures
            final(self).wf(),
            final(self)@ == old(self)@.play(old(self).queued()).state,
            final(self).queued() == old(self)@.play(old(self).queued()).queue,
            turn.messages@ == messages@ + old(self)@.play(old(self).queued()).messages,
            turn.pause == old(self)@.play(old(self).queued()).pause,
    {
        let mut messages = messages;
        let ghost goal = self@.play(self.queued());
        let ghost first = messages@;
        loop
            invariant
                self.wf(),
                self@.play(self.queued()).state == goal.state,
                self@.play(self.queued()).queue == goal.queue,
                self@.play(self.queued()).pause == goal.pause,
                messages@ + self@.play(self.queued()).messages == first + goal.messages,
            decreases self.queue.len() - self.head,
        {
            if self.head >= self.queue.len() {
                self.queue = Vec::new();
                self.head = 0;
                assert(self.queued() =~= Seq::<Command>::empty());
                assert(messages@ + Seq::<MidiMessage>::empty() =~= messages@);
                return Turn { messages, pause: Pause::Idle };
            }
            let command = self.queue[self.head];
            let ghost queued = self.queued();
            let ghost state = self@;
            proof {
                assert(queued[0] == command);
                assert(command.fits());
                assert(queued.drop_first() =~= self.queue@.skip(self.head + 1));
                assert forall|i: int| 0 <= i < queued.drop_first().len() implies (
                #[trigger] queued.drop_first()[i]).fits() by {
                    assert(queued.drop_first()[i] == queued[i + 1]);
                }
                assert(messages@ + Seq::<MidiMessage>::empty() =~= messages@);
            }
            self.head += 1;
            match command {
                Command::Wait(ticks) => {
                    let millis = self.wait_millis(ticks);
                    return Turn { messages, pause: Pause::Wait(millis) };
                },
                _ => {
                    let ghost sofar = messages@;
                    let mut more = self.run_msg(command);
                    messages.append(&mut more);
                    proof {
                        let then = self@.play(self.queued());
                        assert((sofar + state.apply(command).1) + then.messages =~= sofar + (
                        state.apply(command).1 + then.messages));
                    }
                },
            }
        }
    }

    /// Takes the commands that have arrived, which every turn that ends in
    /// `Pause::Idle` asks for, and applies what is queued, in order, up to
    /// the first wait.
    pub fn run(&mut self, batch: Vec<Command>) -> (turn: Turn)
        requires
            old(self).wf(),
            all_fit(batch@),
        ensures
            final(self).wf(),
            final(self).reached(turn, old(self)@.play(old(self).queued() + batch@)),
    {
        let mut batch = batch;
        let ghost queued = self.queued();
        let ghost arrived = batch@;
        self.queue.append(&mut batch);
        proof {
            assert(self.queued() =~= queued + arrived);
            assert forall|i: int| 0 <= i < self.queued().len() implies (
            #[trigger] self.queued()[i]).fits() by {
                if i < queued.len() {
                    assert(self.queued()[i] == queued[i]);
                } else {
                    assert(self.queued()[i] == arrived[i - queued.len()]);
                }
            }
        }
        let turn = self.advance(Vec::new());
        assert(Seq::<MidiMessage>::empty() + old(self)@.play(queued + arrived).messages
            =~= old(self)@.play(queued + arrived).messages);
        turn
    }

    /// Goes on after a wait, with the one command that was taken up after
    /// the sleep, if any had arrived: a stop ends all notes and drops what
    /// was queued; any other command is applied; then what is queued is
    /// applied up to the next wait.
    pub fn resume(&mut self, taken: Option<Command>) -> (turn: Turn)
        requires
            old(self).wf(),
            taken matches Some(command) ==> command.fits(),
        ensures
            final(self).wf(),
            final(self).reached(turn, old(self)@.wake(taken, old(self).queued())),
    {
        match taken {
            Some(Command::Stop) => {
                let messages = self.all_notes_off();
                self.queue = Vec::new();
                self.head = 0;
                assert(self.queued() =~= Seq::<Command>::empty());
                Turn { messages, pause: Pause::Idle }
            },
            Some(command) => {
                let messages = self.run_msg(command);
                self.advance(messages)
            },
            None => {
                let turn = self.advance(Vec::new());
                assert(Seq::<MidiMessage>::empty() + old(self)@.play(old(self).queued()).messages
                    =~= old(self)@.play(old(self).queued()).messages);
                turn
            },
        }
    }

    /// The steps that make one pitch period.
    pub fn tuning(&self) -> (tuning: u16)
        ensures
            tuning == self@.tuning,
    {
        self.tuning
    }

    /// The key offset.
    pub fn key(&self) -> (key: i16)
        ensures
            key == self@.key,
    {
        self.key
    }

    /// The tempo, in beats per minute.
    pub fn tempo(&self) -> (tempo: u16)
        ensures
            tempo == self@.tempo,
    {
        self.tempo
    }

    /// The lines per beat.
    pub fn lines_per_beat(&self) -> (lines_per_beat: u16)
        ensures
            lines_per_beat == self@.lines_per_beat,
    {
        self.lines_per_beat
    }

    /// The notes that sound, in the order in which they began.
    pub fn notes(&self) -> (notes: Vec<ActiveNote>)
        ensures
            notes@ == self@.notes,
    {
        let mut notes: Vec<ActiveNote> = Vec::new();
        let mut i: usize = 0;
        while i < self.notes.len()
            invariant
                i <= self.notes.len(),
                notes@ == self.notes@.take(i as int),
            decreases self.notes.len() - i,
        {
            notes.push(self.notes[i]);
            assert(self.notes@.take(i + 1) =~= self.notes@.take(i as int).push(
                self.notes@[i as int],
            ));
            i += 1;
        }
        assert(self.notes@.take(i as int) =~= self.notes@);
        notes
    }
}


} // verus!
