//! What holds of the interpreter and the playback on every input.

use vstd::prelude::*;
use crate::backend::{audible, differs, without, ActiveNote, Playback};
use crate::command::{Command, MidiMessage, PitchSpec, NOTE_ON};
use crate::lexer::lex;
use crate::machine::{
    lemma_verb_of_spelling, pop_option_integer, spelling, verb, ExecError, Machine, Next, Request,
    Status, Task, Verb, DEFAULT_VELOCITY,
};
use crate::token::{LexError, Lexeme};

verus! {

/// The operand that a velocity is written as: a number, or `Null` for the
/// default.
pub open spec fn velocity_operand(velocity: Option<i64>) -> Lexeme {
    match velocity {
        Some(v) => Lexeme::Integer(v),
        None => Lexeme::Null,
    }
}

/// The byte that a velocity comes to.
pub open spec fn velocity_byte(velocity: Option<i64>) -> u8 {
    match velocity {
        Some(v) => v as u8,
        None => DEFAULT_VELOCITY,
    }
}

/// The stack holds, top last, a channel, a note and a velocity above
/// `below`.
pub open spec fn holds_note(
    stack: Seq<Lexeme>,
    below: Seq<Lexeme>,
    channel: i64,
    note: PitchSpec,
    velocity: Option<i64>,
) -> bool {
    stack == below.push(Lexeme::Integer(channel)).push(
        Lexeme::Note(note.octave, note.degree),
    ).push(velocity_operand(velocity))
}

/// The commands that pop an operand at once: all but `p`, which asks for
/// the script first, and `r` and `s`, which pop nothing.
pub open spec fn pops(verb: Verb) -> bool {
    verb != Verb::Play && verb != Verb::Reload && verb != Verb::Stop
}

/// `+` takes a channel, a note and a velocity off the stack and sends
/// their note-on, and nothing else: nothing is postponed.
pub proof fn lemma_plus(
    m: Machine,
    below: Seq<Lexeme>,
    channel: i64,
    note: PitchSpec,
    velocity: Option<i64>,
)
    requires
        holds_note(m.stack, below, channel, note, velocity),
    ensures
        m.act(Verb::NoteOn) == (
            Machine {
                stack: below,
                sent: m.sent.push(Command::NoteOn(channel as u8, note, velocity_byte(velocity))),
                ..m
            },
            Ok::<Option<Request>, ExecError>(None),
        ),
{
    let s0 = below.push(Lexeme::Integer(channel));
    let s1 = s0.push(Lexeme::Note(note.octave, note.degree));
    assert(m.stack.drop_last() =~= s1);
    assert(s1.drop_last() =~= s0);
    assert(s0.drop_last() =~= below);
}

/// `.` takes a channel, a note and a velocity off the stack, sends their
/// note-on and postpones the note-off: it is not sent.
pub proof fn lemma_staccato(
    m: Machine,
    below: Seq<Lexeme>,
    channel: i64,
    note: PitchSpec,
    velocity: Option<i64>,
)
    requires
        holds_note(m.stack, below, channel, note, velocity),
    ensures
        m.act(Verb::Staccato) == (
            Machine {
                stack: below,
                sent: m.sent.push(Command::NoteOn(channel as u8, note, velocity_byte(velocity))),
                postponed: m.postponed.push(Command::NoteOff(channel as u8, note)),
                ..m
            },
            Ok::<Option<Request>, ExecError>(None),
        ),
{
    let s0 = below.push(Lexeme::Integer(channel));
    let s1 = s0.push(Lexeme::Note(note.octave, note.degree));
    assert(m.stack.drop_last() =~= s1);
    assert(s1.drop_last() =~= s0);
    assert(s0.drop_last() =~= below);
}

/// The note-off of a staccato note that a played line ends with is sent
/// when the line is over, behind the wait of one tick and behind what was
/// postponed before it; until then it is held back.
pub proof fn lemma_staccato_released_after_wait(
    m: Machine,
    below: Seq<Lexeme>,
    channel: i64,
    note: PitchSpec,
    velocity: Option<i64>,
)
    requires
        holds_note(m.stack, below, channel, note, velocity),
        m.tasks.len() >= 2,
        m.tasks.last() == Task::Line(seq![Lexeme::Word(spelling(Verb::Staccato))]),
    ensures
        m.step() matches Next::Go(held) && {
            &&& held.sent == m.sent.push(
                Command::NoteOn(channel as u8, note, velocity_byte(velocity)),
            )
            &&& held.postponed == m.postponed.push(Command::NoteOff(channel as u8, note))
            &&& held.step() matches Next::Go(released) && {
                &&& released.sent == held.sent.push(Command::Wait(1)) + m.postponed.push(
                    Command::NoteOff(channel as u8, note),
                )
                &&& released.postponed == Seq::<Command>::empty()
                &&& released.tasks == m.tasks.drop_last()
            }
        },
{
    let tokens = seq![Lexeme::Word(spelling(Verb::Staccato))];
    lemma_verb_of_spelling(Verb::Staccato);
    let rest = m.tasks.drop_last().push(Task::Line(tokens.drop_first()));
    let here = Machine { tasks: rest, ..m };
    lemma_staccato(here, below, channel, note, velocity);
    assert(rest.drop_last() =~= m.tasks.drop_last());
}

/// At the end of the outermost line nothing is released: what was
/// postponed stays so.
pub proof fn lemma_outermost_line_releases_nothing(m: Machine)
    requires
        m.tasks == seq![Task::Line(Seq::<Lexeme>::empty())],
    ensures
        m.step() == Next::Rest(
            Machine { tasks: Seq::empty(), ..m },
            Status::Finished(Ok(())),
        ),
{
    assert(m.tasks.drop_last() =~= Seq::<Task>::empty());
}

/// A word that pops fails on the empty stack with an underflow, and
/// changes nothing: the stack stays empty and nothing is sent or postponed.
pub proof fn lemma_underflow(m: Machine, verb: Verb)
    requires
        m.stack.len() == 0,
        pops(verb),
    ensures
        m.act(verb) == (m, Err::<Option<Request>, ExecError>(ExecError::StackUnderflow)),
        m.word(spelling(verb)) == m.act(verb),
{
    assert(m.with_stack(m.stack) == m);
    lemma_verb_of_spelling(verb);
}

/// `p` fails on the empty stack with an underflow, once the script is
/// read, and takes up no playing.
pub proof fn lemma_play_underflow(m: Machine)
    requires
        m.stack.len() == 0,
    ensures
        m.play_lines() == (m, Err::<(), ExecError>(ExecError::StackUnderflow)),
{
    assert(m.with_stack(m.stack) == m);
}

/// A word that fails gives the outermost line up: the run ends with the
/// error, and the tokens behind the word are dropped unrun, so that the
/// stack is left as the word left it.
pub proof fn lemma_error_drops_rest_of_line(m: Machine, word: Seq<char>, rest: Seq<Lexeme>)
    requires
        m.tasks == seq![Task::Line(seq![Lexeme::Word(word)] + rest)],
        m.word(word).1 is Err,
    ensures
        m.step() == Next::Rest(
            Machine { tasks: Seq::empty(), ..m.word(word).0 },
            Status::Finished(Err(m.word(word).1->Err_0)),
        ),
{
    let tokens = seq![Lexeme::Word(word)] + rest;
    let kept = m.tasks.drop_last().push(Task::Line(tokens.drop_first()));
    let here = Machine { tasks: kept, ..m };
    lemma_word_ignores_tasks(m, kept, word);
    here.lemma_word_keeps(word);
    assert(kept.drop_last() =~= Seq::<Task>::empty());
}

/// What a word does to the stack, to what is sent and to what is
/// postponed does not depend on the tasks under way.
pub proof fn lemma_word_ignores_tasks(m: Machine, tasks: Seq<Task>, word: Seq<char>)
    ensures
        (Machine { tasks, ..m }).word(word).0 == (Machine { tasks, ..m.word(word).0 }),
        (Machine { tasks, ..m }).word(word).1 == m.word(word).1,
{
}

/// A pitch is the middle pitch, moved by the key, by the tuning for each
/// octave, and by the degree. A note-on with an audible pitch sends one
/// message with that pitch and records the note; with any other pitch it
/// sends nothing and changes nothing.
pub proof fn lemma_note_on(p: Playback, channel: u8, note: PitchSpec, velocity: u8)
    requires
        NOTE_ON + channel <= u8::MAX,
    ensures
        p.pitch(note) == 60 + p.key + p.tuning * note.octave + note.degree,
        0 <= p.pitch(note) <= 127 ==> p.apply(Command::NoteOn(channel, note, velocity)) == (
            Playback { notes: p.notes.push(ActiveNote { channel, note }), ..p },
            seq![
                MidiMessage {
                    status: (0x90 + channel) as u8,
                    data1: p.pitch(note) as u8,
                    data2: velocity,
                },
            ],
        ),
        !(0 <= p.pitch(note) <= 127) ==> p.apply(Command::NoteOn(channel, note, velocity)) == (
            p,
            Seq::<MidiMessage>::empty(),
        ),
{
}

/// `+` on a channel, a note and a velocity, run and then played: where
/// the note's pitch is audible, one note-on message with that pitch, the
/// channel and the velocity is sent and the note sounds; else nothing is
/// sent and what sounds is unchanged.
pub proof fn lemma_plus_played(
    m: Machine,
    p: Playback,
    below: Seq<Lexeme>,
    channel: i64,
    note: PitchSpec,
    velocity: Option<i64>,
)
    requires
        holds_note(m.stack, below, channel, note, velocity),
        m.sent.len() == 0,
        0 <= channel < 16,
    ensures
        m.act(Verb::NoteOn).0.sent.len() == 1,
        audible(p.pitch(note)) ==> p.apply(m.act(Verb::NoteOn).0.sent[0]) == (
            Playback { notes: p.notes.push(ActiveNote { channel: channel as u8, note }), ..p },
            seq![
                MidiMessage {
                    status: (0x90 + channel) as u8,
                    data1: (60 + p.key + p.tuning * note.octave + note.degree) as u8,
                    data2: velocity_byte(velocity),
                },
            ],
        ),
        !audible(p.pitch(note)) ==> p.apply(m.act(Verb::NoteOn).0.sent[0]) == (
            p,
            Seq::<MidiMessage>::empty(),
        ),
{
    lemma_plus(m, below, channel, note, velocity);
}

/// Filtering keeps a sequence whose every element passes.
pub proof fn lemma_filter_all<A>(s: Seq<A>, pred: spec_fn(A) -> bool)
    requires
        forall|i: int| 0 <= i < s.len() ==> pred(#[trigger] s[i]),
    ensures
        s.filter(pred) == s,
    decreases s.len(),
{
    reveal(Seq::filter);
    if s.len() > 0 {
        lemma_filter_all(s.drop_last(), pred);
        assert(s.drop_last().push(s.last()) =~= s);
    }
}

/// A note-on and then a note-off for the same channel and note, both with
/// an audible pitch, leave sounding what sounded before, less every entry
/// for that channel and note: where none was there before, exactly the
/// entry that the note-on made is removed.
pub proof fn lemma_note_on_then_off(p: Playback, channel: u8, note: PitchSpec, velocity: u8)
    requires
        audible(p.pitch(note)),
    ensures
        ({
            let on = p.apply(Command::NoteOn(channel, note, velocity)).0;
            let off = on.apply(Command::NoteOff(channel, note)).0;
            &&& on.notes == p.notes.push(ActiveNote { channel, note })
            &&& off == Playback { notes: without(p.notes, ActiveNote { channel, note }), ..p }
            &&& !p.notes.contains(ActiveNote { channel, note }) ==> off == p
        }),
{
    let entry = ActiveNote { channel, note };
    p.notes.lemma_filter_push(entry, differs(entry));
    if !p.notes.contains(entry) {
        assert forall|i: int| 0 <= i < p.notes.len() implies differs(entry)(
            #[trigger] p.notes[i],
        ) by {
            assert(p.notes.contains(p.notes[i]));
        }
        lemma_filter_all(p.notes, differs(entry));
    }
}

/// Where a note's pitch is not audible, neither its note-on nor its
/// note-off changes what sounds.
pub proof fn lemma_inaudible_changes_nothing(p: Playback, channel: u8, note: PitchSpec, velocity: u8)
    requires
        !audible(p.pitch(note)),
    ensures
        p.apply(Command::NoteOn(channel, note, velocity)) == (p, Seq::<MidiMessage>::empty()),
        p.apply(Command::NoteOff(channel, note)) == (p, Seq::<MidiMessage>::empty()),
{
}

/// A stop leaves nothing sounding, however much did, and changes no
/// setting. It sends a note-off for every note that sounded and whose pitch
/// is audible, so no more messages than notes.
pub proof fn lemma_stop_empties(p: Playback)
    ensures
        p.apply(Command::Stop).0 == (Playback { notes: Seq::empty(), ..p }),
        p.apply(Command::Stop).1 == p.releases(),
        p.releases().len() <= p.notes.len(),
    decreases p.notes.len(),
{
    if p.notes.len() > 0 {
        let rest = Playback { notes: p.notes.drop_last(), ..p };
        lemma_stop_empties(rest);
        assert(rest.releaser() == p.releaser());
    }
}

/// Where every note that sounds has an audible pitch, a stop sends one
/// note-off for each, in order, with the note's channel and pitch and the
/// release velocity.
pub proof fn lemma_stop_releases_each(p: Playback)
    requires
        forall|i: int| 0 <= i < p.notes.len() ==> audible(p.pitch((#[trigger] p.notes[i]).note)),
    ensures
        p.releases().len() == p.notes.len(),
        forall|i: int|
            0 <= i < p.notes.len() ==> #[trigger] p.releases()[i] == (MidiMessage {
                status: (0x80 + p.notes[i].channel) as u8,
                data1: p.pitch(p.notes[i].note) as u8,
                data2: 64,
            }),
    decreases p.notes.len(),
{
    if p.notes.len() > 0 {
        let rest = Playback { notes: p.notes.drop_last(), ..p };
        assert forall|i: int| 0 <= i < rest.notes.len() implies audible(
            rest.pitch((#[trigger] rest.notes[i]).note),
        ) by {
            assert(rest.notes[i] == p.notes[i]);
        }
        lemma_stop_releases_each(rest);
        assert(rest.releaser() == p.releaser());
        assert forall|i: int| 0 <= i < p.notes.len() implies #[trigger] p.releases()[i] == (
        MidiMessage {
            status: (0x80 + p.notes[i].channel) as u8,
            data1: p.pitch(p.notes[i].note) as u8,
            data2: 64,
        }) by {
            if i < rest.notes.len() {
                assert(p.releases()[i] == rest.releases()[i]);
                assert(rest.notes[i] == p.notes[i]);
            }
        }
    }
}

/// A line that begins with a word that pops, run on the empty stack, is
/// given up at that word with an underflow: the tokens behind the word are
/// not run, the stack stays empty, and nothing is sent or postponed.
pub proof fn lemma_underflow_gives_line_up(
    m: Machine,
    line: Seq<char>,
    verb: Verb,
    rest: Seq<Lexeme>,
)
    requires
        m.stack.len() == 0,
        pops(verb),
        lex(line) == Ok::<Seq<Lexeme>, LexError>(seq![Lexeme::Word(spelling(verb))] + rest),
    ensures
        m.exec(line) == (
            Machine { tasks: Seq::empty(), waiting: None, ..m },
            Status::Finished(Err(ExecError::StackUnderflow)),
        ),
{
    let word = spelling(verb);
    let fresh = Machine { tasks: Seq::empty(), waiting: None, ..m };
    let begun = Machine { tasks: seq![Task::Line(seq![Lexeme::Word(word)] + rest)], ..fresh };
    lemma_underflow(begun, verb);
    lemma_error_drops_rest_of_line(begun, word, rest);
}

/// Every message that a command sends has a MIDI pitch, from 0 to 127.
pub proof fn lemma_sent_pitches_are_audible(p: Playback, command: Command, i: int)
    requires
        0 <= i < p.apply(command).1.len(),
    ensures
        p.apply(command).1[i].data1 <= 127,
{
    if command is Stop {
        lemma_releases_are_audible(p, i);
    }
}

/// Every note-off that a stop sends has a MIDI pitch, from 0 to 127.
pub proof fn lemma_releases_are_audible(p: Playback, i: int)
    requires
        0 <= i < p.releases().len(),
    ensures
        p.releases()[i].data1 <= 127,
    decreases p.notes.len(),
{
    if p.notes.len() > 0 {
        let rest = Playback { notes: p.notes.drop_last(), ..p };
        assert(rest.releaser() == p.releaser());
        if i < rest.releases().len() {
            lemma_releases_are_audible(rest, i);
        }
    }
}

/// Positive settings stay positive, and the channels of what sounds stay
/// in reach of a status byte, whatever command that fits is applied.
pub proof fn lemma_apply_keeps_wf(p: Playback, command: Command)
    requires
        p.wf(),
        command.fits(),
    ensures
        p.apply(command).0.wf(),
{
    if let Command::NoteOff(channel, note) = command {
        let gone = ActiveNote { channel, note };
        let kept = without(p.notes, gone);
        assert forall|i: int| 0 <= i < kept.len() implies NOTE_ON + (#[trigger] kept[i]).channel
            <= u8::MAX by {
            p.notes.lemma_filter_contains_rev(differs(gone), kept[i]);
            assert(kept.contains(kept[i]));
        }
    }
}

/// `Null` on top of the stack is read as no number, and the number 0 as
/// that number: the two are told apart.
pub proof fn lemma_null_is_not_zero(stack: Seq<Lexeme>)
    ensures
        pop_option_integer(stack.push(Lexeme::Null)) == (stack, Ok::<Option<i64>, ExecError>(None)),
        pop_option_integer(stack.push(Lexeme::Integer(0))) == (
            stack,
            Ok::<Option<i64>, ExecError>(Some(0)),
        ),
{
    assert(stack.push(Lexeme::Null).drop_last() =~= stack);
    assert(stack.push(Lexeme::Integer(0)).drop_last() =~= stack);
}

/// The machine that a step leads to, whether it goes on or rests.
pub open spec fn reached(next: Next) -> Machine {
    match next {
        Next::Go(machine) => machine,
        Next::Rest(machine, _) => machine,
    }
}

/// `later` is `earlier` with at most one more at its end.
pub open spec fn grown<A>(earlier: Seq<A>, later: Seq<A>) -> bool {
    later == earlier || (later.len() == earlier.len() + 1 && later.drop_last() == earlier)
}

/// A command sends at most one command and postpones at most one; and it
/// postpones only a note-off, whose note-on it sends in its place.
pub proof fn lemma_act_holds_back(m: Machine, verb: Verb)
    ensures
        grown(m.sent, m.act(verb).0.sent),
        grown(m.postponed, m.act(verb).0.postponed),
        m.act(verb).0.postponed != m.postponed ==> {
            &&& m.act(verb).0.sent != m.sent
            &&& m.act(verb).0.sent.last() is NoteOn
            &&& m.act(verb).0.postponed.last() is NoteOff
        },
{
    let after = m.act(verb).0;
    if after.sent != m.sent {
        assert(after.sent.drop_last() =~= m.sent);
    }
    if after.postponed != m.postponed {
        assert(after.postponed.drop_last() =~= m.postponed);
    }
}

/// What is postponed is never sent at once: a step either ends a played
/// line, and then a wait of one tick is sent and behind it all that was
/// postponed, or it sends at most one command of its own and keeps what
/// was postponed, to which it may add the note-off of a note-on it sends.
pub proof fn lemma_postponed_waits_for_end_of_line(m: Machine)
    ensures
        ({
            let next = reached(m.step());
            ||| (next.sent == m.sent.push(Command::Wait(1)) + m.postponed && next.postponed.len()
                == 0)
            ||| (grown(m.sent, next.sent) && grown(m.postponed, next.postponed) && (next.postponed
                != m.postponed ==> next.sent != m.sent && next.sent.last() is NoteOn))
        }),
{
    if m.tasks.len() > 0 {
        if let Task::Line(tokens) = m.tasks.last() {
            if tokens.len() > 0 {
                let here = Machine {
                    tasks: m.tasks.drop_last().push(Task::Line(tokens.drop_first())),
                    ..m
                };
                if let Lexeme::Word(w) = tokens[0] {
                    if let Some(v) = verb(w) {
                        lemma_act_holds_back(here, v);
                        lemma_act_fails_clean(here, v);
                    }
                }
            }
        }
    }
}

/// A command that fails sends nothing and postpones nothing.
pub proof fn lemma_act_fails_clean(m: Machine, verb: Verb)
    ensures
        m.act(verb).1 is Err ==> m.act(verb).0.sent == m.sent && m.act(verb).0.postponed
            == m.postponed,
{
}

} // verus!
