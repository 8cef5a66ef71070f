//! The interpreter: an operand stack and the words that work on it.

use vstd::prelude::*;
use crate::command::{Command, PitchSpec};
use crate::lexer::{characters, lexemes, try_tokenize};
use crate::machine::{
    lemma_spellings_differ, pop_integer, pop_note, pop_option_integer, spelling, verb, Done,
    ExecError, Machine, Next, Request, Source, Status, Task, Verb, DEFAULT_VELOCITY,
};
use crate::token::{Lexeme, Token};

verus! {

/// The views of a sequence of strings.
pub open spec fn texts(lines: Seq<String>) -> Seq<Seq<char>> {
    lines.map_values(|s: String| s@)
}

/// What reading the script gave.
pub enum Script {
    /// No script is associated.
    Absent,
    /// The lines of the script.
    Lines(Vec<String>),
    /// The script could not be read.
    Unreadable,
}

impl View for Script {
    type V = Source;

    open spec fn view(&self) -> Source {
        match *self {
            Script::Absent => Source::Absent,
            Script::Lines(lines) => Source::Lines(texts(lines@)),
            Script::Unreadable => Source::Unreadable,
        }
    }
}

/// Work that is under way, with how far it has come.
pub enum Frame {
    /// The tokens of a line; those from `next` on are still to be run.
    Line { tokens: Vec<Token>, next: usize },
    /// Lines to play; those from `next` on are still to be played.
    Play { lines: Vec<String>, next: usize },
}

impl Frame {
    /// The work has not come further than its end.
    pub open spec fn wf(self) -> bool {
        match self {
            Frame::Line { tokens, next } => next <= tokens.len(),
            Frame::Play { lines, next } => next <= lines.len(),
        }
    }
}

impl View for Frame {
    type V = Task;

    open spec fn view(&self) -> Task {
        match *self {
            Frame::Line { tokens, next } => Task::Line(lexemes(tokens@).skip(next as int)),
            Frame::Play { lines, next } => Task::Play(texts(lines@).skip(next as int)),
        }
    }
}

/// The views of a sequence of frames.
pub open spec fn tasks(frames: Seq<Frame>) -> Seq<Task> {
    frames.map_values(|f: Frame| f@)
}

/// The interpreter.
pub struct Interpreter {
    stack: Vec<Token>,
    postponed: Vec<Command>,
    lines: Vec<String>,
    sent: Vec<Command>,
    frames: Vec<Frame>,
    waiting: Option<Request>,
}

impl View for Interpreter {
    type V = Machine;

    closed spec fn view(&self) -> Machine {
        Machine {
            stack: lexemes(self.stack@),
            postponed: self.postponed@,
            lines: texts(self.lines@),
            sent: self.sent@,
            tasks: tasks(self.frames@),
            waiting: self.waiting,
        }
    }
}

/// Whether two strings hold the same characters.
pub fn same(a: &str, b: &str) -> (equal: bool)
    ensures
        equal == (a@ == b@),
{
    let left = characters(a);
    let right = characters(b);
    if left.len() != right.len() {
        return false;
    }
    let mut i: usize = 0;
    while i < left.len()
        invariant
            i <= left.len(),
            left.len() == right.len(),
            left@ == a@,
            right@ == b@,
            forall|k: int| 0 <= k < i ==> left@[k] == right@[k],
        decreases left.len() - i,
    {
        if left[i] != right[i] {
            return false;
        }
        i += 1;
    }
    assert(a@ =~= b@);
    true
}

/// The command that a word is, if it is one.
pub fn parse_verb(word: &str) -> (found: Option<Verb>)
    ensures
        found == verb(word@),
{
    proof {
        reveal_strlit("+");
        reveal_strlit(".");
        reveal_strlit("-");
        reveal_strlit("key");
        reveal_strlit("edo");
        reveal_strlit("bpm");
        reveal_strlit("lps");
        reveal_strlit("w");
        reveal_strlit("p");
        reveal_strlit("s");
        reveal_strlit("r");
        assert("+"@ =~= spelling(Verb::NoteOn));
        assert("."@ =~= spelling(Verb::Staccato));
        assert("-"@ =~= spelling(Verb::NoteOff));
        assert("key"@ =~= spelling(Verb::Key));
        assert("edo"@ =~= spelling(Verb::Edo));
        assert("bpm"@ =~= spelling(Verb::Bpm));
        assert("lps"@ =~= spelling(Verb::Lps));
        assert("w"@ =~= spelling(Verb::Wait));
        assert("p"@ =~= spelling(Verb::Play));
        assert("s"@ =~= spelling(Verb::Stop));
        assert("r"@ =~= spelling(Verb::Reload));
        lemma_spellings_differ();
    }
    if same(word, "+") {
        Some(Verb::NoteOn)
    } else if same(word, ".") {
        Some(Verb::Staccato)
    } else if same(word, "-") {
        Some(Verb::NoteOff)
    } else if same(word, "key") {
        Some(Verb::Key)
    } else if same(word, "edo") {
        Some(Verb::Edo)
    } else if same(word, "bpm") {
        Some(Verb::Bpm)
    } else if same(word, "lps") {
        Some(Verb::Lps)
    } else if same(word, "w") {
        Some(Verb::Wait)
    } else if same(word, "p") {
        Some(Verb::Play)
    } else if same(word, "s") {
        Some(Verb::Stop)
    } else if same(word, "r") {
        Some(Verb::Reload)
    } else {
        assert forall|v: Verb| word@ != spelling(v) by {}
        None
    }
}

impl Interpreter {
    /// The stack holds no word, and no work has come further than its end.
    pub closed spec fn wf(&self) -> bool {
        &&& self@.wf()
        &&& forall|i: int| 0 <= i < self.frames.len() ==> (#[trigger] self.frames@[i]).wf()
    }

    /// What is well formed has a well-formed state.
    pub proof fn lemma_wf(&self)
        requires
            self.wf(),
        ensures
            self@.wf(),
    {
    }

    /// An interpreter with nothing on its stack, nothing postponed, sent or
    /// under way, and no lines.
    pub fn new() -> (interpreter: Interpreter)
        ensures
            interpreter.wf(),
            interpreter@ == (Machine {
                stack: Seq::empty(),
                postponed: Seq::empty(),
                lines: Seq::empty(),
                sent: Seq::empty(),
                tasks: Seq::empty(),
                waiting: None,
            }),
    {
        let interpreter = Interpreter {
            stack: Vec::new(),
            postponed: Vec::new(),
            lines: Vec::new(),
            sent: Vec::new(),
            frames: Vec::new(),
            waiting: None,
        };
        assert(interpreter@.stack =~= Seq::<Lexeme>::empty());
        assert(interpreter@.lines =~= Seq::<Seq<char>>::empty());
        assert(interpreter@.tasks =~= Seq::<Task>::empty());
        interpreter
    }

    /// Pops an integer. The top is taken off whatever it is.
    pub fn read_integer(&mut self) -> (value: Result<i64, ExecError>)
        requires
            old(self).wf(),
        ensures
            final(self).wf(),
            final(self)@ == old(self)@.with_stack(pop_integer(old(self)@.stack).0),
            value == pop_integer(old(self)@.stack).1,
    {
        let top = self.stack.pop();
        proof {
            assert(self@.stack =~= pop_integer(old(self)@.stack).0);
        }
        match top {
            Some(Token::Integer(i)) => Ok(i),
            Some(_) => Err(ExecError::StackType),
            None => Err(ExecError::StackUnderflow),
        }
    }

    /// Pops an integer or `Null`, which stands for none. The top is taken
    /// off whatever it is.
    pub fn read_option_integer(&mut self) -> (value: Result<Option<i64>, ExecError>)
        requires
            old(self).wf(),
        ensures
            final(self).wf(),
            final(self)@ == old(self)@.with_stack(pop_option_integer(old(self)@.stack).0),
            value == pop_option_integer(old(self)@.stack).1,
    {
        let top = self.stack.pop();
        proof {
            assert(self@.stack =~= pop_option_integer(old(self)@.stack).0);
        }
        match top {
            Some(Token::Integer(i)) => Ok(Some(i)),
            Some(Token::Null) => Ok(None),
            Some(_) => Err(ExecError::StackType),
            None => Err(ExecError::StackUnderflow),
        }
    }

    /// Pops a note. The top is taken off whatever it is.
    pub fn read_note(&mut self) -> (value: Result<PitchSpec, ExecError>)
        requires
            old(self).wf(),
        ensures
            final(self).wf(),
            final(self)@ == old(self)@.with_stack(pop_note(old(self)@.stack).0),
            value == pop_note(old(self)@.stack).1,
    {
        let top = self.stack.pop();
        proof {
            assert(self@.stack =~= pop_note(old(self)@.stack).0);
        }
        match top {
            Some(Token::Note(octave, degree)) => Ok(PitchSpec { octave, degree }),
            Some(_) => Err(ExecError::StackType),
            None => Err(ExecError::StackUnderflow),
        }
    }

    /// `+` and `.`: sends a note-on for the velocity, the note and the
    /// channel that it pops, and with `staccato` postpones the note-off.
    fn play_note(&mut self, staccato: bool) -> (done: Done)
        requires
            old(self).wf(),
        ensures
            final(self).wf(),
            final(self)@ == old(self)@.play_note(staccato).0,
            done == old(self)@.play_note(staccato).1,
    {
        let velocity = match self.read_option_integer() {
            Ok(Some(v)) => #[verifier::truncate] (v as u8),
            Ok(None) => DEFAULT_VELOCITY,
            Err(e) => {
                return Err(e);
            },
        };
        let note = match self.read_note() {
            Ok(note) => note,
            Err(e) => {
                return Err(e);
            },
        };
        let channel = match self.read_integer() {
            Ok(ch) => #[verifier::truncate] (ch as u8),
            Err(e) => {
                return Err(e);
            },
        };
        self.sent.push(Command::NoteOn(channel, note, velocity));
        if staccato {
            self.postponed.push(Command::NoteOff(channel, note));
        }
        Ok(None)
    }

    /// `-`: sends a note-off for the note and the channel that it pops.
    fn end_note(&mut self) -> (done: Done)
        requires
            old(self).wf(),
        ensures
            final(self).wf(),
            final(self)@ == old(self)@.end_note().0,
            done == old(self)@.end_note().1,
    {
        let note = match self.read_note() {
            Ok(note) => note,
            Err(e) => {
                return Err(e);
            },
        };
        let channel = match self.read_integer() {
            Ok(ch) => #[verifier::truncate] (ch as u8),
            Err(e) => {
                return Err(e);
            },
        };
        self.sent.push(Command::NoteOff(channel, note));
        Ok(None)
    }

    /// Runs one command: it takes its operands off the stack and sends what
    /// it stands for; `p` and `r` ask for the script and leave the rest to
    /// `resume`. The error of a pop that fails is returned, with the pops
    /// before it done.
    pub fn exec_verb(&mut self, verb: Verb) -> (done: Done)
        requires
            old(self).wf(),
        ensures
            final(self).wf(),
            final(self)@ == old(self)@.act(verb).0,
            done == old(self)@.act(verb).1,
    {
        match verb {
            Verb::NoteOn => self.play_note(false),
            Verb::Staccato => self.play_note(true),
            Verb::NoteOff => self.end_note(),
            Verb::Play => Ok(Some(Request::Play)),
            Verb::Stop => {
                self.sent.push(Command::Stop);
                Ok(None)
            },
            Verb::Reload => Ok(Some(Request::Reload)),
            Verb::Key | Verb::Edo | Verb::Bpm | Verb::Lps | Verb::Wait => {
                let value = match self.read_integer() {
                    Ok(value) => value,
                    Err(e) => {
                        return Err(e);
                    },
                };
                let command = match verb {
                    Verb::Key => Command::SetKeyOffset(#[verifier::truncate] (value as i16)),
                    Verb::Edo => Command::SetTuning(#[verifier::truncate] (value as u16)),
                    Verb::Bpm => Command::SetTempo(#[verifier::truncate] (value as u16)),
                    Verb::Lps => Command::SetLinesPerBeat(#[verifier::truncate] (value as u16)),
                    _ => Command::Wait(#[verifier::truncate] (value as u16)),
                };
                self.sent.push(command);
                Ok(None)
            },
        }
    }

    /// Runs one word: a command acts; any other word does nothing.
    pub fn exec_word(&mut self, word: &str) -> (done: Done)
        requires
            old(self).wf(),
        ensures
            final(self).wf(),
            final(self)@ == old(self)@.word(word@).0,
            done == old(self)@.word(word@).1,
    {
        match parse_verb(word) {
            Some(verb) => self.exec_verb(verb),
            None => Ok(None),
        }
    }

    /// The end of a line that was played: a wait of one tick is sent, and
    /// then every note-off that was postponed, in order.
    fn end_line(&mut self)
        requires
            old(self).wf(),
        ensures
            final(self).wf(),
            final(self)@ == old(self)@.end_line(),
    {
        self.sent.push(Command::Wait(1));
        self.sent.append(&mut self.postponed);
    }

    /// Leaves the innermost line, run out or given up for `error`.
    fn leave_line(&mut self, error: Option<ExecError>) -> (rest: Option<Status>)
        requires
            old(self).wf(),
            old(self)@.tasks.len() > 0,
        ensures
            final(self).wf(),
            match old(self)@.leave_line(error) {
                Next::Go(next) => rest is None && final(self)@ == next,
                Next::Rest(machine, status) => rest == Some(status) && final(self)@ == machine,
            },
    {
        let _ = self.frames.pop();
        proof {
            assert(self@.tasks =~= old(self)@.tasks.drop_last());
        }
        if self.frames.len() == 0 {
            Some(
                Status::Finished(
                    match error {
                        Some(e) => Err(e),
                        None => Ok(()),
                    },
                ),
            )
        } else {
            self.end_line();
            None
        }
    }

    /// One step of the innermost task. Returns how the run came to rest, if
    /// it did.
    pub fn step(&mut self) -> (rest: Option<Status>)
        requires
            old(self).wf(),
        ensures
            final(self).wf(),
            match old(self)@.step() {
                Next::Go(next) => rest is None && final(self)@ == next,
                Next::Rest(machine, status) => rest == Some(status) && final(self)@ == machine,
            },
    {
        let ghost below = self@.tasks.drop_last();
        if self.frames.len() == 0 {
            return Some(Status::Finished(Ok(())));
        }
        assert(self.frames@.last().wf());
        match self.frames.pop() {
            None => Some(Status::Finished(Ok(()))),
            Some(Frame::Line { tokens, next }) => {
                proof {
                    assert(tasks(self.frames@) =~= below);
                }
                if next >= tokens.len() {
                    self.frames.push(Frame::Line { tokens, next });
                    proof {
                        assert(self@.tasks =~= old(self)@.tasks);
                    }
                    self.leave_line(None)
                } else {
                    let token = tokens[next].clone();
                    let ghost rest = lexemes(tokens@).skip(next as int);
                    proof {
                        assert(rest[0] == token@);
                        assert(rest.drop_first() =~= lexemes(tokens@).skip(next + 1));
                    }
                    self.frames.push(Frame::Line { tokens, next: next + 1 });
                    proof {
                        assert(self@.tasks =~= below.push(Task::Line(rest.drop_first())));
                    }
                    match token {
                        Token::Word(word) => {
                            match self.exec_word(word.as_str()) {
                                Ok(None) => None,
                                Ok(Some(request)) => {
                                    self.waiting = Some(request);
                                    Some(Status::NeedScript)
                                },
                                Err(e) => {
                                    proof {
                                        self@.lemma_word_keeps(word@);
                                    }
                                    self.leave_line(Some(e))
                                },
                            }
                        },
                        operand => {
                            let ghost stack = self@.stack;
                            self.stack.push(operand);
                            proof {
                                assert(self@.stack =~= stack.push(operand@));
                            }
                            None
                        },
                    }
                }
            },
            Some(Frame::Play { lines, next }) => {
                proof {
                    assert(tasks(self.frames@) =~= below);
                }
                if next >= lines.len() {
                    None
                } else {
                    let ghost rest = texts(lines@).skip(next as int);
                    proof {
                        assert(rest[0] == lines@[next as int]@);
                        assert(rest.drop_first() =~= texts(lines@).skip(next + 1));
                    }
                    match try_tokenize(lines[next].as_str()) {
                        Ok(tokens) => {
                            proof {
                                assert(lexemes(tokens@).skip(0) =~= lexemes(tokens@));
                            }
                            self.frames.push(Frame::Play { lines, next: next + 1 });
                            self.frames.push(Frame::Line { tokens, next: 0 });
                            proof {
                                assert(self@.tasks =~= below.push(
                                    Task::Play(rest.drop_first()),
                                ).push(Task::Line(lexemes(tokens@))));
                            }
                            None
                        },
                        Err(e) => {
                            self.frames = Vec::new();
                            proof {
                                assert(self@.tasks =~= Seq::<Task>::empty());
                            }
                            Some(Status::Finished(Err(ExecError::Lex(e))))
                        },
                    }
                }
            },
        }
    }

    /// Runs step by step until the run comes to rest.
    pub fn run(&mut self) -> (status: Status)
        requires
            old(self).wf(),
        ensures
            final(self).wf(),
            final(self)@ == old(self)@.run().0,
            status == old(self)@.run().1,
    {
        loop
            invariant
                self.wf(),
                self@.run() == old(self)@.run(),
            decreases Machine::lines_left(self@.tasks), Machine::tokens_left(self@.tasks),
        {
            proof {
                self@.lemma_step_decreases();
            }
            match self.step() {
                Some(status) => {
                    return status;
                },
                None => {},
            }
        }
    }

    /// Runs a line from the start: work that was under way is dropped, and
    /// the tokens of the line are run from left to right, operands pushed
    /// and words run, until the line is done, a word fails, or a word asks
    /// for the script. A literal that cannot be read ends the run at once.
    pub fn exec(&mut self, line: &str) -> (status: Status)
        requires
            old(self).wf(),
        ensures
            final(self).wf(),
            final(self)@ == old(self)@.exec(line@).0,
            status == old(self)@.exec(line@).1,
    {
        self.frames = Vec::new();
        self.waiting = None;
        proof {
            assert(self@.tasks =~= Seq::<Task>::empty());
        }
        match try_tokenize(line) {
            Ok(tokens) => {
                proof {
                    assert(lexemes(tokens@).skip(0) =~= lexemes(tokens@));
                }
                self.frames.push(Frame::Line { tokens, next: 0 });
                proof {
                    assert(self@.tasks =~= seq![Task::Line(lexemes(tokens@))]);
                }
                self.run()
            },
            Err(e) => Status::Finished(Err(ExecError::Lex(e))),
        }
    }

    /// Gives the innermost line up for `error`, and runs on if a line that
    /// was played is left.
    fn fail(&mut self, error: ExecError) -> (status: Status)
        requires
            old(self).wf(),
        ensures
            final(self).wf(),
            match old(self)@.fail(error) {
                Next::Go(next) => final(self)@ == next.run().0 && status == next.run().1,
                Next::Rest(machine, rest) => final(self)@ == machine && status == rest,
            },
    {
        if self.frames.len() == 0 {
            return Status::Finished(Err(error));
        }
        match self.leave_line(Some(error)) {
            Some(status) => status,
            None => self.run(),
        }
    }

    /// The lines from `from` up to `to`, copied.
    fn copy_lines(&self, from: usize, to: usize) -> (lines: Vec<String>)
        requires
            from <= to <= self.lines.len(),
        ensures
            texts(lines@) == self@.lines.subrange(from as int, to as int),
    {
        let mut lines: Vec<String> = Vec::new();
        let mut at = from;
        assert(texts(lines@) =~= self@.lines.subrange(from as int, at as int));
        while at < to
            invariant
                from <= at <= to <= self.lines.len(),
                texts(lines@) == self@.lines.subrange(from as int, at as int),
            decreases to - at,
        {
            let line = self.lines[at].clone();
            let ghost before = lines@;
            lines.push(line);
            proof {
                assert(texts(before.push(line)) =~= texts(before).push(line@));
                assert(self@.lines.subrange(from as int, at + 1) =~= self@.lines.subrange(
                    from as int,
                    at as int,
                ).push(self.lines@[at as int]@));
            }
            at += 1;
        }
        lines
    }

    /// The rest of `p`, once the script is read: pops the end, which may be
    /// `Null` for the last line, and the start, counted from 1, and takes up
    /// the playing of the lines from the start up to and including the end.
    fn play_lines(&mut self) -> (done: Result<(), ExecError>)
        requires
            old(self).wf(),
        ensures
            final(self).wf(),
            final(self)@ == old(self)@.play_lines().0,
            done == old(self)@.play_lines().1,
    {
        let to = match self.read_option_integer() {
            Ok(to) => to,
            Err(e) => {
                return Err(e);
            },
        };
        let from = match self.read_integer() {
            Ok(from) => from,
            Err(e) => {
                return Err(e);
            },
        };
        let len = self.lines.len();
        let end: i128 = match to {
            Some(t) => t as i128,
            None => len as i128,
        };
        let start: i128 = from as i128 - 1;
        if 0 <= start && start <= end && end <= len as i128 {
            let lines = self.copy_lines(start as usize, end as usize);
            let ghost tasks = self@.tasks;
            self.frames.push(Frame::Play { lines, next: 0 });
            proof {
                assert(texts(lines@).skip(0) =~= texts(lines@));
                assert(self@.tasks =~= tasks.push(
                    Task::Play(self@.lines.subrange(start as int, end as int)),
                ));
            }
            Ok(())
        } else {
            Err(ExecError::Range)
        }
    }

    /// Goes on with the script that a word asked for. `r` takes it into the
    /// line buffer; `p` does so too, then pops its operands and plays the
    /// lines: each is run, a wait of one tick is sent, and after it the
    /// note-offs that the line postponed. A script that could not be read,
    /// and lines that are not in the script, give the asking line up.
    pub fn resume(&mut self, script: Script) -> (status: Status)
        requires
            old(self).wf(),
        ensures
            final(self).wf(),
            final(self)@ == old(self)@.resume(script@).0,
            status == old(self)@.resume(script@).1,
    {
        let request = self.waiting;
        self.waiting = None;
        match request {
            None => self.run(),
            Some(request) => {
                match script {
                    Script::Unreadable => {
                        return self.fail(ExecError::File);
                    },
                    Script::Lines(lines) => {
                        self.lines = lines;
                    },
                    Script::Absent => {},
                }
                match request {
                    Request::Reload => self.run(),
                    Request::Play => match self.play_lines() {
                        Ok(_) => self.run(),
                        Err(e) => self.fail(e),
                    },
                }
            },
        }
    }

    /// Takes the script's lines into the line buffer.
    pub fn load(&mut self, lines: Vec<String>)
        requires
            old(self).wf(),
        ensures
            final(self).wf(),
            final(self)@ == old(self)@.load(Source::Lines(texts(lines@))),
    {
        self.lines = lines;
    }

    /// Hands over the commands that were sent since the last call, in
    /// order.
    pub fn take_sent(&mut self) -> (commands: Vec<Command>)
        requires
            old(self).wf(),
        ensures
            final(self).wf(),
            commands@ == old(self)@.sent,
            final(self)@ == (Machine { sent: Seq::empty(), ..old(self)@ }),
    {
        let mut commands: Vec<Command> = Vec::new();
        commands.append(&mut self.sent);
        assert(commands@ =~= old(self)@.sent);
        commands
    }

    /// The operand stack, top last.
    pub fn stack(&self) -> (stack: Vec<Token>)
        ensures
            lexemes(stack@) == self@.stack,
    {
        let mut stack: Vec<Token> = Vec::new();
        let mut i: usize = 0;
        assert(lexemes(stack@) =~= self@.stack.take(0));
        while i < self.stack.len()
            invariant
                i <= self.stack.len(),
                lexemes(stack@) == self@.stack.take(i as int),
            decreases self.stack.len() - i,
        {
            let token = self.stack[i].clone();
            let ghost before = stack@;
            stack.push(token);
            proof {
                assert(lexemes(before.push(token)) =~= lexemes(before).push(token@));
                assert(self@.stack.take(i + 1) =~= self@.stack.take(i as int).push(token@));
            }
            i += 1;
        }
        assert(self@.stack.take(i as int) =~= self@.stack);
        stack
    }

    /// The note-offs that wait for the end of their line, in order.
    pub fn postponed(&self) -> (postponed: Vec<Command>)
        ensures
            postponed@ == self@.postponed,
    {
        let mut postponed: Vec<Command> = Vec::new();
        let mut i: usize = 0;
        while i < self.postponed.len()
            invariant
                i <= self.postponed.len(),
                postponed@ == self.postponed@.take(i as int),
            decreases self.postponed.len() - i,
        {
            postponed.push(self.postponed[i]);
            assert(self.postponed@.take(i + 1) =~= self.postponed@.take(i as int).push(
                self.postponed@[i as int],
            ));
            i += 1;
        }
        assert(self.postponed@.take(i as int) =~= self.postponed@);
        postponed
    }

    /// The number of lines in the line buffer.
    pub fn line_count(&self) -> (count: usize)
        ensures
            count == self@.lines.len(),
    {
        self.lines.len()
    }

    /// The request that waits for the script, if one does.
    pub fn waiting(&self) -> (waiting: Option<Request>)
        ensures
            waiting == self@.waiting,
    {
        self.waiting
    }
}

/// How many lines of a script are run when it is first loaded: those
/// before its first empty line.
pub fn opening(lines: &Vec<String>) -> (count: usize)
    ensures
        count <= lines.len(),
        forall|i: int| 0 <= i < count ==> (#[trigger] lines@[i])@.len() > 0,
        count < lines.len() ==> lines@[count as int]@.len() == 0,
{
    let mut count: usize = 0;
    while count < lines.len() && !lines[count].as_str().is_empty()
        invariant
            count <= lines.len(),
            forall|i: int| 0 <= i < count ==> (#[trigger] lines@[i])@.len() > 0,
        decreases lines.len() - count,
    {
        count += 1;
    }
    count
}

} // verus!
