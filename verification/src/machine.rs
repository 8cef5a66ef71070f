//! The interpreter as a mathematical machine: its state, what each word
//! does to it, and how a line is run.

use vstd::prelude::*;
use crate::command::{Command, PitchSpec};
use crate::lexer::lex;
use crate::token::{LexError, Lexeme};

verus! {

/// The velocity of a note that is played without one.
pub const DEFAULT_VELOCITY: u8 = 64;

/// Why a line was given up.
#[derive(Debug, Clone, Copy, PartialEq, Eq, Structural)]
pub enum ExecError {
    /// A word found the stack empty.
    StackUnderflow,
    /// A word found an operand of another type than it takes.
    StackType,
    /// The script could not be read.
    File,
    /// The lines asked for are not all in the script.
    Range,
    /// A line holds a literal that cannot be read.
    Lex(LexError),
}

/// What a word asks the script for.
#[derive(Debug, Clone, Copy, PartialEq, Eq, Structural)]
pub enum Request {
    /// `r`: read the script anew.
    Reload,
    /// `p`: read the script anew, then play lines of it.
    Play,
}

/// How a run of the interpreter comes to rest.
#[derive(Debug, Clone, Copy, PartialEq, Eq)]
pub enum Status {
    /// The line is done, or was given up for the error.
    Finished(Result<(), ExecError>),
    /// A word asks for the script: read it and hand it to `resume`.
    NeedScript,
}

/// What reading the script gave.
pub enum Source {
    /// No script is associated.
    Absent,
    /// The lines of the script.
    Lines(Seq<Seq<char>>),
    /// The script could not be read.
    Unreadable,
}

/// Work that is under way.
pub enum Task {
    /// The tokens of a line that are still to be run.
    Line(Seq<Lexeme>),
    /// The lines that are still to be played.
    Play(Seq<Seq<char>>),
}

/// The state of the interpreter.
pub struct Machine {
    /// The operand stack, top last.
    pub stack: Seq<Lexeme>,
    /// The note-offs of staccato notes that wait for the end of their line.
    pub postponed: Seq<Command>,
    /// The lines of the script, as last read.
    pub lines: Seq<Seq<char>>,
    /// The commands sent and not yet taken, in order.
    pub sent: Seq<Command>,
    /// The work under way, innermost last.
    pub tasks: Seq<Task>,
    /// The request that waits for the script.
    pub waiting: Option<Request>,
}

/// What comes of one step: the machine goes on, or comes to rest.
pub enum Next {
    Go(Machine),
    Rest(Machine, Status),
}

/// What a pop gives: the stack left, and the operand or the error.
pub type Popped<T> = (Seq<Lexeme>, Result<T, ExecError>);

/// Pops an integer. The top is taken off whatever it is.
pub open spec fn pop_integer(stack: Seq<Lexeme>) -> Popped<i64> {
    if stack.len() == 0 {
        (stack, Err(ExecError::StackUnderflow))
    } else {
        (
            stack.drop_last(),
            match stack.last() {
                Lexeme::Integer(i) => Ok(i),
                _ => Err(ExecError::StackType),
            },
        )
    }
}

/// Pops an integer or `Null`, which stands for none. The top is taken off
/// whatever it is.
pub open spec fn pop_option_integer(stack: Seq<Lexeme>) -> Popped<Option<i64>> {
    if stack.len() == 0 {
        (stack, Err(ExecError::StackUnderflow))
    } else {
        (
            stack.drop_last(),
            match stack.last() {
                Lexeme::Integer(i) => Ok(Some(i)),
                Lexeme::Null => Ok(None),
                _ => Err(ExecError::StackType),
            },
        )
    }
}

/// Pops a note. The top is taken off whatever it is.
pub open spec fn pop_note(stack: Seq<Lexeme>) -> Popped<PitchSpec> {
    if stack.len() == 0 {
        (stack, Err(ExecError::StackUnderflow))
    } else {
        (
            stack.drop_last(),
            match stack.last() {
                Lexeme::Note(octave, degree) => Ok(PitchSpec { octave, degree }),
                _ => Err(ExecError::StackType),
            },
        )
    }
}

/// The words that are commands.
#[derive(Debug, Clone, Copy, PartialEq, Eq, Structural)]
pub enum Verb {
    /// `+`: a note begins.
    NoteOn,
    /// `.`: a note begins, and ends with its line.
    Staccato,
    /// `-`: a note ends.
    NoteOff,
    /// `key`: the key offset.
    Key,
    /// `edo`: the tuning.
    Edo,
    /// `bpm`: the tempo.
    Bpm,
    /// `lps`: the lines per beat.
    Lps,
    /// `w`: a wait.
    Wait,
    /// `p`: lines of the script are played.
    Play,
    /// `s`: all notes end.
    Stop,
    /// `r`: the script is read anew.
    Reload,
}

/// How a command is written.
pub open spec fn spelling(verb: Verb) -> Seq<char> {
    match verb {
        Verb::NoteOn => seq!['+'],
        Verb::Staccato => seq!['.'],
        Verb::NoteOff => seq!['-'],
        Verb::Key => seq!['k', 'e', 'y'],
        Verb::Edo => seq!['e', 'd', 'o'],
        Verb::Bpm => seq!['b', 'p', 'm'],
        Verb::Lps => seq!['l', 'p', 's'],
        Verb::Wait => seq!['w'],
        Verb::Play => seq!['p'],
        Verb::Stop => seq!['s'],
        Verb::Reload => seq!['r'],
    }
}

/// The command that a word is, if it is one: the word must be written
/// exactly as the command is.
pub open spec fn verb(word: Seq<char>) -> Option<Verb> {
    if exists|v: Verb| word == spelling(v) {
        Some(choose|v: Verb| word == spelling(v))
    } else {
        None
    }
}

/// No two commands are written alike, so each spelling is the word of its
/// own command.
pub proof fn lemma_verb_of_spelling(v: Verb)
    ensures
        verb(spelling(v)) == Some(v),
{
    lemma_spellings_differ();
}

/// Two commands that differ are written with another first character or
/// another length.
pub proof fn lemma_spellings_differ()
    ensures
        forall|u: Verb, v: Verb|
            spelling(u) == spelling(v) ==> u == v,
{
    assert forall|u: Verb, v: Verb| spelling(u) == spelling(v) implies u == v by {
        if u != v {
            assert(spelling(u).len() != spelling(v).len() || spelling(u)[0] != spelling(v)[0]);
        }
    }
}

/// The command of a word that takes one integer, for that integer: a key,
/// a tuning, a tempo, the lines per beat, or a wait. Numbers that do not
/// fit the command are cut to its width.
pub open spec fn setting(verb: Verb, value: i64) -> Option<Command> {
    match verb {
        Verb::Key => Some(Command::SetKeyOffset(value as i16)),
        Verb::Edo => Some(Command::SetTuning(value as u16)),
        Verb::Bpm => Some(Command::SetTempo(value as u16)),
        Verb::Lps => Some(Command::SetLinesPerBeat(value as u16)),
        Verb::Wait => Some(Command::Wait(value as u16)),
        _ => None,
    }
}

/// What a word did: nothing more to do, a request for the script, or the
/// error that gives the line up.
pub type Done = Result<Option<Request>, ExecError>;

impl Machine {
    /// The stack holds no word.
    pub open spec fn wf(self) -> bool {
        forall|i: int| 0 <= i < self.stack.len() ==> !((#[trigger] self.stack[i]) is Word)
    }

    /// The machine with another stack.
    pub open spec fn with_stack(self, stack: Seq<Lexeme>) -> Machine {
        Machine { stack, ..self }
    }

    /// The machine after it has sent a command.
    pub open spec fn send(self, command: Command) -> Machine {
        Machine { sent: self.sent.push(command), ..self }
    }

    /// `+` and `.`: pops a velocity, which may be `Null` for the default, a
    /// note and a channel, and sends the note-on. With `staccato` the
    /// matching note-off is postponed. Channel and velocity are cut to a
    /// byte. The pops before a failing one stay done.
    pub open spec fn play_note(self, staccato: bool) -> (Machine, Done) {
        let (s1, velocity) = pop_option_integer(self.stack);
        let (s2, note) = pop_note(s1);
        let (s3, channel) = pop_integer(s2);
        if velocity is Err {
            (self.with_stack(s1), Err(velocity->Err_0))
        } else if note is Err {
            (self.with_stack(s2), Err(note->Err_0))
        } else if channel is Err {
            (self.with_stack(s3), Err(channel->Err_0))
        } else {
            let ch = channel->Ok_0 as u8;
            let vel = match velocity->Ok_0 {
                Some(v) => v as u8,
                None => DEFAULT_VELOCITY,
            };
            let sounding = self.with_stack(s3).send(Command::NoteOn(ch, note->Ok_0, vel));
            if staccato {
                (
                    Machine {
                        postponed: self.postponed.push(Command::NoteOff(ch, note->Ok_0)),
                        ..sounding
                    },
                    Ok(None),
                )
            } else {
                (sounding, Ok(None))
            }
        }
    }

    /// `-`: pops a note and a channel, and sends the note-off. The channel
    /// is cut to a byte.
    pub open spec fn end_note(self) -> (Machine, Done) {
        let (s1, note) = pop_note(self.stack);
        let (s2, channel) = pop_integer(s1);
        if note is Err {
            (self.with_stack(s1), Err(note->Err_0))
        } else if channel is Err {
            (self.with_stack(s2), Err(channel->Err_0))
        } else {
            (self.with_stack(s2).send(Command::NoteOff(channel->Ok_0 as u8, note->Ok_0)), Ok(None))
        }
    }

    /// `key`, `edo`, `bpm`, `lps` and `w`: pops an integer and sends the
    /// command for it.
    pub open spec fn set(self, verb: Verb) -> (Machine, Done) {
        let (s1, value) = pop_integer(self.stack);
        match value {
            Ok(v) => (self.with_stack(s1).send(setting(verb, v)->0), Ok(None)),
            Err(e) => (self.with_stack(s1), Err(e)),
        }
    }

    /// What a command does. `p` and `r` only ask for the script.
    pub open spec fn act(self, verb: Verb) -> (Machine, Done) {
        match verb {
            Verb::NoteOn => self.play_note(false),
            Verb::Staccato => self.play_note(true),
            Verb::NoteOff => self.end_note(),
            Verb::Play => (self, Ok(Some(Request::Play))),
            Verb::Stop => (self.send(Command::Stop), Ok(None)),
            Verb::Reload => (self, Ok(Some(Request::Reload))),
            _ => self.set(verb),
        }
    }

    /// What a word does: a command acts; any other word does nothing.
    pub open spec fn word(self, word: Seq<char>) -> (Machine, Done) {
        match verb(word) {
            Some(v) => self.act(v),
            None => (self, Ok(None)),
        }
    }

    /// The script is taken into the line buffer; without a script the buffer
    /// stays.
    pub open spec fn load(self, source: Source) -> Machine {
        match source {
            Source::Lines(lines) => Machine { lines, ..self },
            _ => self,
        }
    }

    /// The rest of `p`, once the script is read: pops the end, which may be
    /// `Null` for the last line, and the start, counted from 1, and takes up
    /// the playing of the lines from the start up to and including the end.
    pub open spec fn play_lines(self) -> (Machine, Result<(), ExecError>) {
        let (s1, to) = pop_option_integer(self.stack);
        let (s2, from) = pop_integer(s1);
        if to is Err {
            (self.with_stack(s1), Err(to->Err_0))
        } else if from is Err {
            (self.with_stack(s2), Err(from->Err_0))
        } else {
            let end: int = match to->Ok_0 {
                Some(t) => t as int,
                None => self.lines.len() as int,
            };
            let start: int = from->Ok_0 - 1;
            if 0 <= start <= end <= self.lines.len() {
                (
                    Machine {
                        stack: s2,
                        tasks: self.tasks.push(Task::Play(self.lines.subrange(start, end))),
                        ..self
                    },
                    Ok(()),
                )
            } else {
                (self.with_stack(s2), Err(ExecError::Range))
            }
        }
    }

    /// The end of a line that was played: a wait of one tick is sent, and
    /// then every note-off that was postponed, in order.
    pub open spec fn end_line(self) -> Machine {
        Machine {
            sent: self.sent.push(Command::Wait(1)) + self.postponed,
            postponed: Seq::empty(),
            ..self
        }
    }

    /// The innermost line is over, run out or given up for `error`. The
    /// outermost line ends the run with that; a line that was played ends
    /// as every played line does, its error forgotten.
    pub open spec fn leave_line(self, error: Option<ExecError>) -> Next {
        let left = Machine { tasks: self.tasks.drop_last(), ..self };
        if left.tasks.len() == 0 {
            Next::Rest(
                left,
                Status::Finished(
                    match error {
                        Some(e) => Err(e),
                        None => Ok(()),
                    },
                ),
            )
        } else {
            Next::Go(left.end_line())
        }
    }

    /// One step of the innermost task: the next token of a line is pushed,
    /// or run if it is a word; the next line to play is tokenized and taken
    /// up; a task that has run out is left.
    pub open spec fn step(self) -> Next {
        if self.tasks.len() == 0 {
            Next::Rest(self, Status::Finished(Ok(())))
        } else {
            match self.tasks.last() {
                Task::Line(tokens) => {
                    if tokens.len() == 0 {
                        self.leave_line(None)
                    } else {
                        let here = Machine {
                            tasks: self.tasks.drop_last().push(Task::Line(tokens.drop_first())),
                            ..self
                        };
                        match tokens[0] {
                            Lexeme::Word(w) => {
                                let (after, done) = here.word(w);
                                match done {
                                    Ok(None) => Next::Go(after),
                                    Ok(Some(request)) => Next::Rest(
                                        Machine { waiting: Some(request), ..after },
                                        Status::NeedScript,
                                    ),
                                    Err(e) => after.leave_line(Some(e)),
                                }
                            },
                            operand => Next::Go(here.with_stack(here.stack.push(operand))),
                        }
                    }
                },
                Task::Play(lines) => {
                    if lines.len() == 0 {
                        Next::Go(Machine { tasks: self.tasks.drop_last(), ..self })
                    } else {
                        match lex(lines[0]) {
                            Ok(tokens) => Next::Go(
                                Machine {
                                    tasks: self.tasks.drop_last().push(
                                        Task::Play(lines.drop_first()),
                                    ).push(Task::Line(tokens)),
                                    ..self
                                },
                            ),
                            Err(e) => Next::Rest(
                                Machine { tasks: Seq::empty(), ..self },
                                Status::Finished(Err(ExecError::Lex(e))),
                            ),
                        }
                    }
                },
            }
        }
    }

    /// The lines that are still to be played, over all tasks.
    pub open spec fn lines_left(tasks: Seq<Task>) -> nat
        decreases tasks.len(),
    {
        if tasks.len() == 0 {
            0
        } else {
            Self::lines_left(tasks.drop_last()) + match tasks.last() {
                Task::Play(lines) => lines.len(),
                Task::Line(_) => 0,
            }
        }
    }

    /// The tokens that are still to be run, over all tasks, and one for
    /// each task.
    pub open spec fn tokens_left(tasks: Seq<Task>) -> nat
        decreases tasks.len(),
    {
        if tasks.len() == 0 {
            0
        } else {
            Self::tokens_left(tasks.drop_last()) + 1 + match tasks.last() {
                Task::Line(tokens) => tokens.len(),
                Task::Play(_) => 0,
            }
        }
    }

    /// The machine runs, step by step, until it comes to rest.
    pub open spec fn run(self) -> (Machine, Status)
        decreases Self::lines_left(self.tasks), Self::tokens_left(self.tasks),
    {
        match self.step() {
            Next::Go(next) => {
                proof {
                    self.lemma_step_decreases();
                }
                next.run()
            },
            Next::Rest(machine, status) => (machine, status),
        }
    }

    /// A word leaves the tasks, the script and the request as they are, and
    /// puts no word on the stack.
    pub proof fn lemma_word_keeps(self, word: Seq<char>)
        ensures
            self.word(word).0.tasks == self.tasks,
            self.word(word).0.lines == self.lines,
            self.word(word).0.waiting == self.waiting,
            self.wf() ==> self.word(word).0.wf(),
    {
    }

    /// Each step that goes on leaves less to do: fewer lines to play, or as
    /// many and fewer tokens and tasks.
    pub proof fn lemma_step_decreases(self)
        ensures
            self.step() matches Next::Go(next) ==> {
                ||| Self::lines_left(next.tasks) < Self::lines_left(self.tasks)
                ||| (Self::lines_left(next.tasks) == Self::lines_left(self.tasks)
                    && Self::tokens_left(next.tasks) < Self::tokens_left(self.tasks))
            },
    {
        if self.tasks.len() > 0 {
            let below = self.tasks.drop_last();
            match self.tasks.last() {
                Task::Line(tokens) => {
                    if tokens.len() > 0 {
                        let kept = below.push(Task::Line(tokens.drop_first()));
                        assert(kept.drop_last() =~= below);
                        assert(Self::tokens_left(kept) < Self::tokens_left(self.tasks));
                        if let Lexeme::Word(w) = tokens[0] {
                            (Machine { tasks: kept, ..self }).lemma_word_keeps(w);
                        }
                    }
                },
                Task::Play(lines) => {
                    if lines.len() > 0 && lex(lines[0]) is Ok {
                        let kept = below.push(Task::Play(lines.drop_first()));
                        assert(kept.drop_last() =~= below);
                        let more = kept.push(Task::Line(lex(lines[0])->Ok_0));
                        assert(more.drop_last() =~= kept);
                        assert(Self::lines_left(kept) < Self::lines_left(self.tasks));
                    }
                },
            }
        }
    }

    /// A line is run from the start: work that was under way is dropped,
    /// and the line is tokenized and run. A literal that cannot be read
    /// ends the run at once.
    pub open spec fn exec(self, line: Seq<char>) -> (Machine, Status) {
        let fresh = Machine { tasks: Seq::empty(), waiting: None, ..self };
        match lex(line) {
            Ok(tokens) => Machine { tasks: seq![Task::Line(tokens)], ..fresh }.run(),
            Err(e) => (fresh, Status::Finished(Err(ExecError::Lex(e)))),
        }
    }

    /// The run goes on with the script that a word asked for. `r` takes it
    /// into the line buffer; `p` does so too and then takes up the lines to
    /// play. A script that could not be read gives the line up. Where no
    /// request waits, the script is not looked at.
    pub open spec fn resume(self, source: Source) -> (Machine, Status) {
        let awake = Machine { waiting: None, ..self };
        match self.waiting {
            None => awake.run(),
            Some(request) => {
                if source is Unreadable {
                    match awake.fail(ExecError::File) {
                        Next::Go(next) => next.run(),
                        Next::Rest(machine, status) => (machine, status),
                    }
                } else if request == Request::Reload {
                    awake.load(source).run()
                } else {
                    let (after, done) = awake.load(source).play_lines();
                    match done {
                        Ok(_) => after.run(),
                        Err(e) => match after.fail(e) {
                            Next::Go(next) => next.run(),
                            Next::Rest(machine, status) => (machine, status),
                        },
                    }
                }
            },
        }
    }

    /// The innermost line is given up for `error`; with no task under way
    /// the run ends with it.
    pub open spec fn fail(self, error: ExecError) -> Next {
        if self.tasks.len() == 0 {
            Next::Rest(self, Status::Finished(Err(error)))
        } else {
            self.leave_line(Some(error))
        }
    }

    /// No step puts a word on the stack.
    pub proof fn lemma_step_keeps_wf(self)
        requires
            self.wf(),
        ensures
            match self.step() {
                Next::Go(next) => next.wf(),
                Next::Rest(machine, _) => machine.wf(),
            },
    {
        if self.tasks.len() > 0 {
            if let Task::Line(tokens) = self.tasks.last() {
                if tokens.len() > 0 {
                    let here = Machine {
                        tasks: self.tasks.drop_last().push(Task::Line(tokens.drop_first())),
                        ..self
                    };
                    if let Lexeme::Word(w) = tokens[0] {
                        here.lemma_word_keeps(w);
                    }
                }
            }
        }
    }

    /// No run puts a word on the stack.
    pub proof fn lemma_run_keeps_wf(self)
        requires
            self.wf(),
        ensures
            self.run().0.wf(),
        decreases Self::lines_left(self.tasks), Self::tokens_left(self.tasks),
    {
        self.lemma_step_keeps_wf();
        self.lemma_step_decreases();
        if let Next::Go(next) = self.step() {
            next.lemma_run_keeps_wf();
        }
    }
}

} // verus!
