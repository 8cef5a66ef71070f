use med::backend::{ActiveNote, Backend, Pause, IDLE_MILLIS};
use med::command::{Command, MidiMessage, PitchSpec};

fn note(octave: i8, degree: i16) -> PitchSpec {
    PitchSpec { octave, degree }
}

fn message(status: u8, data1: u8, data2: u8) -> MidiMessage {
    MidiMessage { status, data1, data2 }
}

#[test]
fn starts_with_the_defaults() {
    let backend = Backend::new();
    assert_eq!(backend.tuning(), 12);
    assert_eq!(backend.key(), 0);
    assert_eq!(backend.tempo(), 120);
    assert_eq!(backend.lines_per_beat(), 4);
    assert_eq!(backend.notes(), vec![]);
    assert_eq!(IDLE_MILLIS, 8);
}

#[test]
fn tuning_is_part_of_the_configuration() {
    let backend = Backend::with_tuning(31).unwrap();
    assert_eq!(backend.tuning(), 31);
    assert_eq!(backend.pitch(note(1, 2)), 60 + 31 + 2);
    assert!(Backend::with_tuning(0).is_none());
}

#[test]
fn pitch_follows_the_formula() {
    let mut backend = Backend::new();
    assert_eq!(backend.pitch(note(0, 0)), 60);
    assert_eq!(backend.pitch(note(0, 7)), 67);
    assert_eq!(backend.pitch(note(1, 0)), 72);
    assert_eq!(backend.pitch(note(-3, 5)), 60 - 36 + 5);
    backend.run_msg(Command::SetKeyOffset(-5));
    backend.run_msg(Command::SetTuning(19));
    assert_eq!(backend.pitch(note(2, 3)), 60 - 5 + 19 * 2 + 3);
    assert_eq!(backend.pitch(note(-128, -32768)), 60 - 5 - 19 * 128 - 32768);
}

#[test]
fn note_on_sends_and_records() {
    let mut backend = Backend::new();
    assert_eq!(backend.note_on(1, note(0, 0), 64), Some(message(0x91, 60, 64)));
    assert_eq!(backend.note_on(2, note(0, 7), 100), Some(message(0x92, 67, 100)));
    assert_eq!(backend.notes(), vec![
        ActiveNote { channel: 1, note: note(0, 0) },
        ActiveNote { channel: 2, note: note(0, 7) },
    ]);
}

#[test]
fn pitches_out_of_range_are_dropped() {
    let mut backend = Backend::new();
    assert_eq!(backend.note_on(0, note(0, 68), 64), None);
    assert_eq!(backend.note_on(0, note(0, -61), 64), None);
    assert_eq!(backend.note_on(0, note(6, 0), 64), None);
    assert_eq!(backend.notes(), vec![]);
    assert_eq!(backend.note_on(0, note(0, 67), 64), Some(message(0x90, 127, 64)));
    assert_eq!(backend.note_on(0, note(0, -60), 64), Some(message(0x90, 0, 64)));
    assert_eq!(backend.notes().len(), 2);
    assert_eq!(backend.note_off(0, note(0, 68), 64), None);
    assert_eq!(backend.notes().len(), 2);
}

#[test]
fn note_off_removes_the_matching_entry() {
    let mut backend = Backend::new();
    backend.note_on(1, note(0, 0), 64);
    backend.note_on(2, note(0, 7), 64);
    assert_eq!(backend.note_off(1, note(0, 0), 64), Some(message(0x81, 60, 64)));
    assert_eq!(backend.notes(), vec![ActiveNote { channel: 2, note: note(0, 7) }]);
    assert_eq!(backend.note_off(1, note(0, 7), 64), Some(message(0x81, 67, 64)));
    assert_eq!(backend.notes(), vec![ActiveNote { channel: 2, note: note(0, 7) }]);
}

#[test]
fn note_off_removes_every_duplicate() {
    let mut backend = Backend::new();
    backend.note_on(1, note(0, 0), 64);
    backend.note_on(1, note(0, 2), 64);
    backend.note_on(1, note(0, 0), 64);
    assert_eq!(backend.notes().len(), 3);
    backend.note_off(1, note(0, 0), 64);
    assert_eq!(backend.notes(), vec![ActiveNote { channel: 1, note: note(0, 2) }]);
}

#[test]
fn stop_releases_all_that_sounds() {
    let mut backend = Backend::new();
    backend.note_on(1, note(0, 0), 64);
    backend.note_on(2, note(0, 7), 90);
    backend.note_on(1, note(0, 0), 64);
    assert_eq!(backend.run_msg(Command::Stop), vec![
        message(0x81, 60, 64),
        message(0x82, 67, 64),
        message(0x81, 60, 64),
    ]);
    assert_eq!(backend.notes(), vec![]);
    assert_eq!(backend.all_notes_off(), vec![]);
}

#[test]
fn stop_sends_nothing_for_a_pitch_that_left_the_range() {
    let mut backend = Backend::new();
    backend.note_on(0, note(0, 60), 64);
    backend.note_on(0, note(0, 0), 64);
    backend.run_msg(Command::SetKeyOffset(10));
    assert_eq!(backend.all_notes_off(), vec![message(0x80, 70, 64)]);
    assert_eq!(backend.notes(), vec![]);
}

#[test]
fn settings_are_taken() {
    let mut backend = Backend::new();
    assert_eq!(backend.run_msg(Command::SetTuning(31)), vec![]);
    assert_eq!(backend.run_msg(Command::SetKeyOffset(-7)), vec![]);
    assert_eq!(backend.run_msg(Command::SetTempo(90)), vec![]);
    assert_eq!(backend.run_msg(Command::SetLinesPerBeat(8)), vec![]);
    assert_eq!(backend.run_msg(Command::Wait(3)), vec![]);
    assert_eq!(backend.tuning(), 31);
    assert_eq!(backend.key(), -7);
    assert_eq!(backend.tempo(), 90);
    assert_eq!(backend.lines_per_beat(), 8);
}

#[test]
fn zero_settings_are_not_taken() {
    let mut backend = Backend::new();
    backend.run_msg(Command::SetTuning(0));
    backend.run_msg(Command::SetTempo(0));
    backend.run_msg(Command::SetLinesPerBeat(0));
    assert_eq!(backend.tuning(), 12);
    assert_eq!(backend.tempo(), 120);
    assert_eq!(backend.lines_per_beat(), 4);
}

#[test]
fn a_tick_lasts_a_minute_over_tempo_times_lines() {
    let mut backend = Backend::new();
    assert_eq!(backend.wait_millis(1), 125);
    assert_eq!(backend.wait_millis(4), 500);
    assert_eq!(backend.wait_millis(0), 0);
    backend.run_msg(Command::SetTempo(7));
    backend.run_msg(Command::SetLinesPerBeat(3));
    assert_eq!(backend.wait_millis(2), 2 * 2857);
    backend.run_msg(Command::SetTempo(65535));
    backend.run_msg(Command::SetLinesPerBeat(65535));
    assert_eq!(backend.wait_millis(65535), 0);
    backend.run_msg(Command::SetTempo(1));
    backend.run_msg(Command::SetLinesPerBeat(1));
    assert_eq!(backend.wait_millis(65535), 60000 * 65535);
}

#[test]
fn a_batch_runs_up_to_the_first_wait() {
    let mut backend = Backend::new();
    let turn = backend.run(vec![
        Command::NoteOn(1, note(0, 0), 64),
        Command::Wait(2),
        Command::NoteOff(1, note(0, 0)),
        Command::Wait(1),
        Command::NoteOn(1, note(0, 4), 64),
    ]);
    assert_eq!(turn.messages, vec![message(0x91, 60, 64)]);
    assert_eq!(turn.pause, Pause::Wait(250));
    let turn = backend.resume(None);
    assert_eq!(turn.messages, vec![message(0x81, 60, 64)]);
    assert_eq!(turn.pause, Pause::Wait(125));
    let turn = backend.resume(None);
    assert_eq!(turn.messages, vec![message(0x91, 64, 64)]);
    assert_eq!(turn.pause, Pause::Idle);
    let turn = backend.run(vec![]);
    assert_eq!(turn.messages, vec![]);
    assert_eq!(turn.pause, Pause::Idle);
}

#[test]
fn the_command_taken_after_a_wait_is_applied_first() {
    let mut backend = Backend::new();
    let turn = backend.run(vec![Command::Wait(1), Command::NoteOn(0, note(0, 0), 64)]);
    assert_eq!(turn.messages, vec![]);
    assert_eq!(turn.pause, Pause::Wait(125));
    let turn = backend.resume(Some(Command::SetKeyOffset(2)));
    assert_eq!(turn.messages, vec![message(0x90, 62, 64)]);
    assert_eq!(turn.pause, Pause::Idle);
}

#[test]
fn a_stop_after_a_wait_drops_the_batch() {
    let mut backend = Backend::new();
    let turn = backend.run(vec![
        Command::NoteOn(0, note(0, 0), 64),
        Command::Wait(1),
        Command::NoteOn(0, note(0, 4), 64),
    ]);
    assert_eq!(turn.pause, Pause::Wait(125));
    let turn = backend.resume(Some(Command::Stop));
    assert_eq!(turn.messages, vec![message(0x80, 60, 64)]);
    assert_eq!(turn.pause, Pause::Idle);
    assert_eq!(backend.notes(), vec![]);
    let turn = backend.run(vec![]);
    assert_eq!(turn.messages, vec![]);
}

#[test]
fn a_wait_taken_after_a_wait_does_nothing() {
    let mut backend = Backend::new();
    backend.run(vec![Command::Wait(1)]);
    let turn = backend.resume(Some(Command::Wait(9)));
    assert_eq!(turn.messages, vec![]);
    assert_eq!(turn.pause, Pause::Idle);
}

#[test]
fn a_stop_in_a_batch_keeps_the_rest() {
    let mut backend = Backend::new();
    let turn = backend.run(vec![
        Command::NoteOn(0, note(0, 0), 64),
        Command::Stop,
        Command::NoteOn(0, note(0, 4), 64),
    ]);
    assert_eq!(turn.messages, vec![
        message(0x90, 60, 64),
        message(0x80, 60, 64),
        message(0x90, 64, 64),
    ]);
    assert_eq!(backend.notes(), vec![ActiveNote { channel: 0, note: note(0, 4) }]);
}

#[test]
fn commands_know_whether_they_fit() {
    assert!(Command::NoteOn(15, note(0, 0), 64).check_fits());
    assert!(Command::NoteOn(0x6f, note(0, 0), 64).check_fits());
    assert!(!Command::NoteOn(0x70, note(0, 0), 64).check_fits());
    assert!(Command::NoteOff(0x7f, note(0, 0)).check_fits());
    assert!(!Command::NoteOff(0x80, note(0, 0)).check_fits());
    assert!(Command::Stop.check_fits());
}
