use med::command::{Command, PitchSpec};
use med::interpreter::{parse_verb, same, Interpreter, Script};
use med::machine::{ExecError, Request, Status, Verb};
use med::token::{LexError, Token};

fn note(octave: i8, degree: i16) -> PitchSpec {
    PitchSpec { octave, degree }
}

fn lines(text: &[&str]) -> Vec<String> {
    text.iter().map(|l| l.to_string()).collect()
}

const DONE: Status = Status::Finished(Ok(()));

#[test]
fn plus_sends_a_note_on() {
    let mut interpreter = Interpreter::new();
    assert_eq!(interpreter.exec("1d0,64+ 2d7,64+ 1d0-"), DONE);
    assert_eq!(interpreter.take_sent(), vec![
        Command::NoteOn(1, note(0, 0), 64),
        Command::NoteOn(2, note(0, 7), 64),
        Command::NoteOff(1, note(0, 0)),
    ]);
    assert_eq!(interpreter.stack(), vec![]);
    assert_eq!(interpreter.take_sent(), vec![]);
}

#[test]
fn null_velocity_is_the_default() {
    let mut interpreter = Interpreter::new();
    assert_eq!(interpreter.exec("3 e2 _ +"), DONE);
    assert_eq!(interpreter.take_sent(), vec![Command::NoteOn(3, note(1, 2), 64)]);
    assert_eq!(interpreter.exec("3 e2 0 +"), DONE);
    assert_eq!(interpreter.take_sent(), vec![Command::NoteOn(3, note(1, 2), 0)]);
}

#[test]
fn read_option_integer_tells_null_from_zero() {
    let mut interpreter = Interpreter::new();
    interpreter.exec("0 _");
    assert_eq!(interpreter.stack(), vec![Token::Integer(0), Token::Null]);
    assert_eq!(interpreter.read_option_integer(), Ok(None));
    assert_eq!(interpreter.read_option_integer(), Ok(Some(0)));
    assert_eq!(interpreter.read_option_integer(), Err(ExecError::StackUnderflow));
}

#[test]
fn reads_pop_by_type() {
    let mut interpreter = Interpreter::new();
    interpreter.exec("7 d3 _ 5");
    assert_eq!(interpreter.read_integer(), Ok(5));
    assert_eq!(interpreter.read_integer(), Err(ExecError::StackType));
    assert_eq!(interpreter.read_note(), Ok(note(0, 3)));
    assert_eq!(interpreter.read_note(), Err(ExecError::StackType));
    assert_eq!(interpreter.read_note(), Err(ExecError::StackUnderflow));
    assert_eq!(interpreter.read_integer(), Err(ExecError::StackUnderflow));
    interpreter.exec("d1");
    assert_eq!(interpreter.read_option_integer(), Err(ExecError::StackType));
    assert_eq!(interpreter.stack(), vec![]);
}

#[test]
fn staccato_postpones_the_note_off() {
    let mut interpreter = Interpreter::new();
    assert_eq!(interpreter.exec("1 d0 80 ."), DONE);
    assert_eq!(interpreter.take_sent(), vec![Command::NoteOn(1, note(0, 0), 80)]);
    assert_eq!(interpreter.postponed(), vec![Command::NoteOff(1, note(0, 0))]);
    assert_eq!(interpreter.exec("w"), Status::Finished(Err(ExecError::StackUnderflow)));
    assert_eq!(interpreter.exec("2 w"), DONE);
    assert_eq!(interpreter.take_sent(), vec![Command::Wait(2)]);
    assert_eq!(interpreter.postponed(), vec![Command::NoteOff(1, note(0, 0))]);
}

#[test]
fn settings_and_stop() {
    let mut interpreter = Interpreter::new();
    assert_eq!(interpreter.exec("-3 key 31 edo 90 bpm 8 lps 2 w s"), DONE);
    assert_eq!(interpreter.take_sent(), vec![
        Command::SetKeyOffset(-3),
        Command::SetTuning(31),
        Command::SetTempo(90),
        Command::SetLinesPerBeat(8),
        Command::Wait(2),
        Command::Stop,
    ]);
}

#[test]
fn numbers_are_cut_to_the_width_of_the_command() {
    let mut interpreter = Interpreter::new();
    assert_eq!(interpreter.exec("257 d0 256 + 65537 edo 65536 bpm -1 w 32768 key"), DONE);
    assert_eq!(interpreter.take_sent(), vec![
        Command::NoteOn(1, note(0, 0), 0),
        Command::SetTuning(1),
        Command::SetTempo(0),
        Command::Wait(65535),
        Command::SetKeyOffset(-32768),
    ]);
}

#[test]
fn unknown_words_do_nothing() {
    let mut interpreter = Interpreter::new();
    assert_eq!(interpreter.exec("1 hello 2 ! 3"), DONE);
    assert_eq!(interpreter.stack(), vec![
        Token::Integer(1),
        Token::Integer(2),
        Token::Integer(3),
    ]);
    assert_eq!(interpreter.take_sent(), vec![]);
    assert_eq!(interpreter.exec_word("KEY"), Ok(None));
    assert_eq!(interpreter.stack().len(), 3);
}

#[test]
fn underflow_gives_the_line_up() {
    let mut interpreter = Interpreter::new();
    assert_eq!(interpreter.exec("+ 1 2 3"), Status::Finished(Err(ExecError::StackUnderflow)));
    assert_eq!(interpreter.stack(), vec![]);
    assert_eq!(interpreter.take_sent(), vec![]);
    assert_eq!(interpreter.exec("-"), Status::Finished(Err(ExecError::StackUnderflow)));
    assert_eq!(interpreter.exec("key"), Status::Finished(Err(ExecError::StackUnderflow)));
    assert_eq!(interpreter.exec("."), Status::Finished(Err(ExecError::StackUnderflow)));
    assert_eq!(interpreter.stack(), vec![]);
}

#[test]
fn what_was_sent_before_an_error_stays_sent() {
    let mut interpreter = Interpreter::new();
    assert_eq!(
        interpreter.exec("1 d0 64 + 64 + 5 key"),
        Status::Finished(Err(ExecError::StackUnderflow))
    );
    assert_eq!(interpreter.take_sent(), vec![Command::NoteOn(1, note(0, 0), 64)]);
    assert_eq!(interpreter.stack(), vec![]);
}

#[test]
fn a_wrong_type_is_popped_and_fails() {
    let mut interpreter = Interpreter::new();
    assert_eq!(interpreter.exec("1 2 3 +"), Status::Finished(Err(ExecError::StackType)));
    assert_eq!(interpreter.stack(), vec![Token::Integer(1)]);
    assert_eq!(interpreter.exec("d0 key"), Status::Finished(Err(ExecError::StackType)));
    assert_eq!(interpreter.stack(), vec![Token::Integer(1)]);
}

#[test]
fn a_literal_that_cannot_be_read_ends_the_run() {
    let mut interpreter = Interpreter::new();
    assert_eq!(
        interpreter.exec("1 d0 + 99999999999999999999"),
        Status::Finished(Err(ExecError::Lex(LexError::Integer)))
    );
    assert_eq!(interpreter.take_sent(), vec![]);
    assert_eq!(interpreter.stack(), vec![]);
}

#[test]
fn reload_asks_for_the_script() {
    let mut interpreter = Interpreter::new();
    assert_eq!(interpreter.exec("r 5"), Status::NeedScript);
    assert_eq!(interpreter.waiting(), Some(Request::Reload));
    assert_eq!(interpreter.stack(), vec![]);
    assert_eq!(interpreter.resume(Script::Lines(lines(&["a", "b", "c"]))), DONE);
    assert_eq!(interpreter.line_count(), 3);
    assert_eq!(interpreter.stack(), vec![Token::Integer(5)]);
    assert_eq!(interpreter.waiting(), None);
}

#[test]
fn reload_without_a_script_keeps_the_lines() {
    let mut interpreter = Interpreter::new();
    interpreter.load(lines(&["1 d0 +"]));
    assert_eq!(interpreter.exec("r"), Status::NeedScript);
    assert_eq!(interpreter.resume(Script::Absent), DONE);
    assert_eq!(interpreter.line_count(), 1);
}

#[test]
fn an_unreadable_script_gives_the_line_up() {
    let mut interpreter = Interpreter::new();
    assert_eq!(interpreter.exec("1 r 2"), Status::NeedScript);
    assert_eq!(interpreter.resume(Script::Unreadable), Status::Finished(Err(ExecError::File)));
    assert_eq!(interpreter.stack(), vec![Token::Integer(1)]);
    assert_eq!(interpreter.exec("1 1 p"), Status::NeedScript);
    assert_eq!(interpreter.resume(Script::Unreadable), Status::Finished(Err(ExecError::File)));
    assert_eq!(interpreter.stack(), vec![
        Token::Integer(1),
        Token::Integer(1),
        Token::Integer(1),
    ]);
}

#[test]
fn play_runs_each_line_then_waits_then_releases() {
    let mut interpreter = Interpreter::new();
    let script = lines(&["1 d0 64 .", "1 d2 64 . 1 d4 64 .", "", "1 d5 64 +"]);
    assert_eq!(interpreter.exec("1 3 p s"), Status::NeedScript);
    assert_eq!(interpreter.take_sent(), vec![]);
    assert_eq!(interpreter.resume(Script::Lines(script)), DONE);
    assert_eq!(interpreter.take_sent(), vec![
        Command::NoteOn(1, note(0, 0), 64),
        Command::Wait(1),
        Command::NoteOff(1, note(0, 0)),
        Command::NoteOn(1, note(0, 2), 64),
        Command::NoteOn(1, note(0, 4), 64),
        Command::Wait(1),
        Command::NoteOff(1, note(0, 2)),
        Command::NoteOff(1, note(0, 4)),
        Command::Wait(1),
        Command::Stop,
    ]);
    assert_eq!(interpreter.postponed(), vec![]);
    assert_eq!(interpreter.stack(), vec![]);
}

#[test]
fn play_to_the_end_with_null() {
    let mut interpreter = Interpreter::new();
    assert_eq!(interpreter.exec("2 _ p"), Status::NeedScript);
    assert_eq!(interpreter.resume(Script::Lines(lines(&["1 key", "2 key", "3 key"]))), DONE);
    assert_eq!(interpreter.take_sent(), vec![
        Command::SetKeyOffset(2),
        Command::Wait(1),
        Command::SetKeyOffset(3),
        Command::Wait(1),
    ]);
}

#[test]
fn play_of_no_lines_sends_nothing() {
    let mut interpreter = Interpreter::new();
    assert_eq!(interpreter.exec("3 2 p"), Status::NeedScript);
    assert_eq!(interpreter.resume(Script::Lines(lines(&["1 key", "2 key"]))), DONE);
    assert_eq!(interpreter.take_sent(), vec![]);
}

#[test]
fn play_outside_the_script_is_a_range_error() {
    let script = lines(&["1 key", "2 key"]);
    for line in ["1 3 p", "0 1 p", "3 1 p", "4 _ p", "-1 2 p", "2 -1 p"] {
        let mut interpreter = Interpreter::new();
        assert_eq!(interpreter.exec(line), Status::NeedScript);
        assert_eq!(
            interpreter.resume(Script::Lines(script.clone())),
            Status::Finished(Err(ExecError::Range))
        );
        assert_eq!(interpreter.take_sent(), vec![]);
        assert_eq!(interpreter.stack(), vec![]);
    }
}

#[test]
fn play_pops_after_the_script_is_read() {
    let mut interpreter = Interpreter::new();
    assert_eq!(interpreter.exec("p"), Status::NeedScript);
    assert_eq!(
        interpreter.resume(Script::Lines(lines(&["1 key"]))),
        Status::Finished(Err(ExecError::StackUnderflow))
    );
    assert_eq!(interpreter.line_count(), 1);
    assert_eq!(interpreter.exec("d0 1 p"), Status::NeedScript);
    assert_eq!(interpreter.resume(Script::Absent), Status::Finished(Err(ExecError::StackType)));
}

#[test]
fn errors_in_played_lines_are_forgotten() {
    let mut interpreter = Interpreter::new();
    assert_eq!(interpreter.exec("1 3 p 9 key"), Status::NeedScript);
    let script = lines(&["1 d0 .", "+ 7 key", "1 d0 64 ."]);
    assert_eq!(interpreter.resume(Script::Lines(script)), DONE);
    assert_eq!(interpreter.take_sent(), vec![
        Command::Wait(1),
        Command::Wait(1),
        Command::NoteOn(1, note(0, 0), 64),
        Command::Wait(1),
        Command::NoteOff(1, note(0, 0)),
        Command::SetKeyOffset(9),
    ]);
}

#[test]
fn played_lines_may_play_lines() {
    let mut interpreter = Interpreter::new();
    let script = lines(&["2 2 p 1 key", "2 key"]);
    assert_eq!(interpreter.exec("1 1 p 3 key"), Status::NeedScript);
    assert_eq!(interpreter.resume(Script::Lines(script.clone())), Status::NeedScript);
    assert_eq!(interpreter.take_sent(), vec![]);
    assert_eq!(interpreter.resume(Script::Lines(script)), DONE);
    assert_eq!(interpreter.take_sent(), vec![
        Command::SetKeyOffset(2),
        Command::Wait(1),
        Command::SetKeyOffset(1),
        Command::Wait(1),
        Command::SetKeyOffset(3),
    ]);
}

#[test]
fn a_played_line_may_reload_and_fail() {
    let mut interpreter = Interpreter::new();
    assert_eq!(interpreter.exec("1 2 p"), Status::NeedScript);
    let script = lines(&["r 5 key", "6 key"]);
    assert_eq!(interpreter.resume(Script::Lines(script)), Status::NeedScript);
    assert_eq!(interpreter.resume(Script::Unreadable), DONE);
    assert_eq!(interpreter.take_sent(), vec![
        Command::Wait(1),
        Command::SetKeyOffset(6),
        Command::Wait(1),
    ]);
}

#[test]
fn a_played_line_that_cannot_be_read_ends_the_run() {
    let mut interpreter = Interpreter::new();
    assert_eq!(interpreter.exec("1 _ p 1 key"), Status::NeedScript);
    let script = lines(&["2 key", "\"", "3 key"]);
    assert_eq!(
        interpreter.resume(Script::Lines(script)),
        Status::Finished(Err(ExecError::Lex(LexError::Quoted)))
    );
    assert_eq!(interpreter.take_sent(), vec![Command::SetKeyOffset(2), Command::Wait(1)]);
    assert_eq!(interpreter.exec("4 key"), DONE);
    assert_eq!(interpreter.take_sent(), vec![Command::SetKeyOffset(4)]);
}

#[test]
fn exec_drops_work_under_way() {
    let mut interpreter = Interpreter::new();
    assert_eq!(interpreter.exec("r 1 key"), Status::NeedScript);
    assert_eq!(interpreter.exec("2 key"), DONE);
    assert_eq!(interpreter.waiting(), None);
    assert_eq!(interpreter.resume(Script::Absent), DONE);
    assert_eq!(interpreter.take_sent(), vec![Command::SetKeyOffset(2)]);
}

#[test]
fn same_compares_characters() {
    assert!(same("key", "key"));
    assert!(!same("key", "ke"));
    assert!(!same("key", "kex"));
    assert!(same("", ""));
}

#[test]
fn opening_lines_end_at_the_first_empty_one() {
    assert_eq!(med::interpreter::opening(&lines(&["1 key", "2 key", "", "3 key"])), 2);
    assert_eq!(med::interpreter::opening(&lines(&["", "1 key"])), 0);
    assert_eq!(med::interpreter::opening(&lines(&["1 key", " "])), 2);
    assert_eq!(med::interpreter::opening(&lines(&[])), 0);
}

#[test]
fn a_line_played_end_to_end() {
    let mut interpreter = Interpreter::new();
    let mut backend = med::Backend::new();
    assert_eq!(interpreter.exec("5 key 1 d0 100 + 1 w 1 d0 - 1 e60 _ +"), DONE);
    let commands = interpreter.take_sent();
    assert!(commands.iter().all(|c| c.check_fits()));
    let turn = backend.run(commands);
    assert_eq!(turn.messages, vec![med::MidiMessage { status: 0x91, data1: 65, data2: 100 }]);
    assert_eq!(turn.pause, med::backend::Pause::Wait(125));
    let turn = backend.resume(None);
    assert_eq!(turn.messages, vec![med::MidiMessage { status: 0x81, data1: 65, data2: 64 }]);
    assert_eq!(turn.pause, med::backend::Pause::Idle);
    assert_eq!(backend.notes(), vec![]);
}

#[test]
fn step_by_step() {
    let mut interpreter = Interpreter::new();
    assert_eq!(interpreter.step(), Some(DONE));
    assert_eq!(interpreter.run(), DONE);
    assert_eq!(interpreter.exec_word("+"), Err(ExecError::StackUnderflow));
    assert_eq!(interpreter.exec_word("p"), Ok(Some(Request::Play)));
    assert_eq!(interpreter.exec_word("r"), Ok(Some(Request::Reload)));
    assert_eq!(interpreter.exec_word("s"), Ok(None));
    assert_eq!(interpreter.take_sent(), vec![Command::Stop]);
}

#[test]
fn the_vocabulary() {
    let words = [
        ("+", Verb::NoteOn),
        (".", Verb::Staccato),
        ("-", Verb::NoteOff),
        ("key", Verb::Key),
        ("edo", Verb::Edo),
        ("bpm", Verb::Bpm),
        ("lps", Verb::Lps),
        ("w", Verb::Wait),
        ("p", Verb::Play),
        ("s", Verb::Stop),
        ("r", Verb::Reload),
    ];
    for (word, verb) in words {
        assert_eq!(parse_verb(word), Some(verb));
    }
    for word in ["", "++", "Key", "ke", "keys", "lpb", "W", "x", "--"] {
        assert_eq!(parse_verb(word), None);
    }
}

#[test]
fn commands_run_by_name() {
    let mut interpreter = Interpreter::new();
    interpreter.exec("7 8 9 10 11");
    assert_eq!(interpreter.exec_verb(Verb::Wait), Ok(None));
    assert_eq!(interpreter.exec_verb(Verb::Lps), Ok(None));
    assert_eq!(interpreter.exec_verb(Verb::Bpm), Ok(None));
    assert_eq!(interpreter.exec_verb(Verb::Edo), Ok(None));
    assert_eq!(interpreter.exec_verb(Verb::Key), Ok(None));
    assert_eq!(interpreter.exec_verb(Verb::Key), Err(ExecError::StackUnderflow));
    assert_eq!(interpreter.take_sent(), vec![
        Command::Wait(11),
        Command::SetLinesPerBeat(10),
        Command::SetTempo(9),
        Command::SetTuning(8),
        Command::SetKeyOffset(7),
    ]);
}
