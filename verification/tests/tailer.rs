use filequeue::debug::debug_run;
use filequeue::errors::ErrorKind;
use filequeue::filequeue::{FileQueue, TailerAction, TailerEvent, TailerState};
use filequeue::offset::encode_offset;
use filequeue::queue::QueueMessage;

fn data(text: &str) -> QueueMessage {
    QueueMessage::Data(text.to_string())
}

fn read(bytes: &[u8]) -> TailerEvent {
    TailerEvent::Read(bytes.to_vec())
}

fn wake(tailer: &mut FileQueue) -> Vec<QueueMessage> {
    let mut out = tailer.handle(&TailerEvent::Signal(false));
    out.extend(tailer.handle(&TailerEvent::Notified));
    out
}

fn watching(lower: u64, upper: u64, blksize: u64) -> FileQueue {
    let mut tailer = FileQueue::new(lower, upper, blksize);
    tailer.handle(&TailerEvent::Restored { saved: None, length: 0 });
    tailer
}

#[test]
fn a_new_tailer_asks_for_the_saved_cursor() {
    let tailer = FileQueue::new(0, 4096, 4096);
    assert_eq!(tailer.state(), TailerState::Restoring);
    assert_eq!(tailer.next_action(), TailerAction::LoadState);
    assert_eq!(tailer.cursor(), 0);
    assert_eq!(tailer.position(), 0);
    assert_eq!(tailer.pending_len(), 0);
    assert_eq!(tailer.failure(), None);
    assert!(!tailer.is_stopped());
}

#[test]
fn without_a_sidecar_reading_starts_at_zero() {
    let mut tailer = FileQueue::new(0, 4096, 4096);
    let out = tailer.handle(&TailerEvent::Restored { saved: None, length: 700 });
    assert!(out.is_empty());
    assert_eq!(tailer.state(), TailerState::Watching);
    assert_eq!(tailer.next_action(), TailerAction::CheckSignal);
    assert_eq!(tailer.cursor(), 0);
}

#[test]
fn restart_resumes_at_the_saved_cursor() {
    let mut tailer = FileQueue::new(0, 4096, 4096);
    let saved = Some(encode_offset(904));
    let out = tailer.handle(&TailerEvent::Restored { saved, length: 2000 });
    assert!(out.is_empty());
    assert_eq!(tailer.state(), TailerState::Watching);
    assert_eq!(tailer.cursor(), 904);
    assert_eq!(tailer.position(), 904);
    assert_eq!(tailer.pending_len(), 0);
    wake(&mut tailer);
    assert_eq!(tailer.next_action(), TailerAction::Read(904));
}

#[test]
fn restart_after_a_clean_stop_forwards_nothing_twice() {
    let mut first = watching(0, 1 << 20, 4096);
    let out = first.run(&vec![
        TailerEvent::Signal(false),
        TailerEvent::Notified,
        read(b"one\ntwo\n"),
        read(b""),
        TailerEvent::Size(8),
        TailerEvent::Saved,
        TailerEvent::Signal(true),
        read(b""),
    ]);
    assert_eq!(out, vec![data("one\n"), data("two\n")]);
    assert_eq!(first.next_action(), TailerAction::Save(8));
    let sidecar = match first.next_action() {
        TailerAction::Save(pos) => encode_offset(pos),
        _ => unreachable!(),
    };
    assert_eq!(first.handle(&TailerEvent::Saved), vec![QueueMessage::Shutdown]);

    let file: &[u8] = b"one\ntwo\nthree\n";
    let mut second = FileQueue::new(0, 1 << 20, 4096);
    second.handle(&TailerEvent::Restored { saved: Some(sidecar), length: file.len() as u64 });
    wake(&mut second);
    let at = match second.next_action() {
        TailerAction::Read(at) => at as usize,
        _ => unreachable!(),
    };
    assert_eq!(at, 8);
    let out = second.handle(&read(&file[at..]));
    assert_eq!(out, vec![data("three\n")]);
}

#[test]
fn a_saved_cursor_beyond_the_file_is_brought_back_to_its_end() {
    let mut tailer = FileQueue::new(0, 4096, 4096);
    tailer.handle(&TailerEvent::Restored { saved: Some(encode_offset(5000)), length: 904 });
    assert_eq!(tailer.state(), TailerState::Watching);
    assert_eq!(tailer.cursor(), 904);

    let mut edge = FileQueue::new(0, 4096, 4096);
    edge.handle(&TailerEvent::Restored { saved: Some(encode_offset(904)), length: 904 });
    assert_eq!(edge.cursor(), 904);

    let mut inside = FileQueue::new(0, 4096, 4096);
    inside.handle(&TailerEvent::Restored { saved: Some(encode_offset(100)), length: 904 });
    assert_eq!(inside.cursor(), 100);
}

#[test]
fn a_short_sidecar_is_fatal() {
    let mut tailer = FileQueue::new(0, 4096, 4096);
    let out = tailer.handle(&TailerEvent::Restored { saved: Some(vec![1, 2, 3]), length: 10 });
    assert!(out.is_empty());
    assert!(tailer.is_stopped());
    assert_eq!(tailer.failure(), Some(ErrorKind::IOError));
    assert_eq!(tailer.next_action(), TailerAction::Stop);
}

#[test]
fn a_pass_without_a_complete_line_goes_back_to_watching() {
    let mut tailer = watching(0, 4096, 4096);
    wake(&mut tailer);
    assert_eq!(tailer.state(), TailerState::Draining);
    assert_eq!(tailer.next_action(), TailerAction::Read(0));
    let out = tailer.handle(&read(b"half a li"));
    assert!(out.is_empty());
    assert_eq!(tailer.state(), TailerState::Watching);
    assert_eq!(tailer.cursor(), 0);
    assert_eq!(tailer.position(), 9);
    assert_eq!(tailer.pending_len(), 9);

    wake(&mut tailer);
    let out = tailer.handle(&read(b""));
    assert!(out.is_empty());
    assert_eq!(tailer.state(), TailerState::Watching);
}

#[test]
fn an_unfinished_line_is_forwarded_once_it_is_completed() {
    let mut tailer = watching(0, 1 << 20, 4096);
    wake(&mut tailer);
    assert!(tailer.handle(&read(b"half a li")).is_empty());
    wake(&mut tailer);
    assert_eq!(tailer.next_action(), TailerAction::Read(9));
    let out = tailer.handle(&read(b"ne\nnext"));
    assert_eq!(out, vec![data("half a line\n")]);
    assert_eq!(tailer.state(), TailerState::Truncating);
    assert_eq!(tailer.next_action(), TailerAction::Measure);
    assert_eq!(tailer.cursor(), 12);
    assert_eq!(tailer.position(), 16);
    assert_eq!(tailer.pending_len(), 4);
    tailer.handle(&TailerEvent::Size(16));
    assert_eq!(tailer.next_action(), TailerAction::Save(12));
}

#[test]
fn reading_goes_on_while_reads_end_in_a_newline() {
    let mut tailer = watching(0, 1 << 20, 4096);
    wake(&mut tailer);
    assert_eq!(tailer.handle(&read(b"a\n")), vec![data("a\n")]);
    assert_eq!(tailer.state(), TailerState::Draining);
    assert_eq!(tailer.next_action(), TailerAction::Read(2));
    assert_eq!(tailer.handle(&read(b"b\n")), vec![data("b\n")]);
    assert_eq!(tailer.next_action(), TailerAction::Read(4));
    assert!(tailer.handle(&read(b"")).is_empty());
    assert_eq!(tailer.state(), TailerState::Truncating);
}

#[test]
fn a_small_file_is_not_truncated_but_its_cursor_is_saved() {
    let mut tailer = watching(0, 4096, 4096);
    wake(&mut tailer);
    tailer.run(&vec![read(b"line\n"), read(b"")]);
    assert_eq!(tailer.next_action(), TailerAction::Measure);
    tailer.handle(&TailerEvent::Size(5));
    assert_eq!(tailer.state(), TailerState::Truncating);
    assert_eq!(tailer.next_action(), TailerAction::Save(5));
    let out = tailer.handle(&TailerEvent::Saved);
    assert!(out.is_empty());
    assert_eq!(tailer.state(), TailerState::Watching);
}

#[test]
fn a_file_of_5000_bytes_is_truncated_once() {
    let mut content: Vec<u8> = Vec::new();
    for _ in 0..499 {
        content.extend_from_slice(b"123456789\n");
    }
    content.extend_from_slice(b"unfinished");
    assert_eq!(content.len(), 5000);

    let mut tailer = watching(0, 4096, 4096);
    wake(&mut tailer);
    let out = tailer.handle(&TailerEvent::Read(content));
    assert_eq!(out.len(), 499);
    assert!(out.iter().all(|m| *m == data("123456789\n")));
    assert_eq!(tailer.cursor(), 4990);
    assert_eq!(tailer.position(), 5000);
    assert_eq!(tailer.pending_len(), 10);
    assert_eq!(tailer.next_action(), TailerAction::Measure);

    tailer.handle(&TailerEvent::Size(5000));
    assert_eq!(tailer.next_action(), TailerAction::Collapse(4096));
    tailer.handle(&TailerEvent::Collapsed);
    assert_eq!(tailer.cursor(), 894);
    assert_eq!(tailer.position(), 904);
    assert_eq!(tailer.next_action(), TailerAction::Save(894));
    tailer.handle(&TailerEvent::Saved);
    assert_eq!(tailer.state(), TailerState::Watching);
    assert_eq!(tailer.pending_len(), 10);

    wake(&mut tailer);
    assert_eq!(tailer.next_action(), TailerAction::Read(904));
    let out = tailer.handle(&read(b" no more\n"));
    assert_eq!(out, vec![data("unfinished no more\n")]);
    assert!(tailer.handle(&read(b"")).is_empty());
    tailer.handle(&TailerEvent::Size(913));
    assert_eq!(tailer.next_action(), TailerAction::Save(913));
}

#[test]
fn a_restart_after_the_truncation_reads_the_pending_line_whole() {
    let mut content: Vec<u8> = Vec::new();
    for _ in 0..499 {
        content.extend_from_slice(b"123456789\n");
    }
    content.extend_from_slice(b"unfinished");

    let mut first = watching(0, 4096, 4096);
    wake(&mut first);
    first.run(&vec![
        TailerEvent::Read(content.clone()),
        TailerEvent::Size(5000),
        TailerEvent::Collapsed,
    ]);
    let saved = match first.next_action() {
        TailerAction::Save(pos) => pos,
        _ => unreachable!(),
    };
    assert_eq!(saved, 894);

    let mut file = content[4096..].to_vec();
    assert_eq!(file.len(), 904);
    file.extend_from_slice(b" no more\n");

    let mut second = FileQueue::new(0, 4096, 4096);
    second.handle(&TailerEvent::Restored {
        saved: Some(encode_offset(saved)),
        length: file.len() as u64,
    });
    wake(&mut second);
    assert_eq!(second.next_action(), TailerAction::Read(894));
    let out = second.handle(&read(&file[894..]));
    assert_eq!(out, vec![data("unfinished no more\n")]);
    assert_eq!(second.cursor(), 913);
}

#[test]
fn a_refused_removal_is_skipped() {
    let mut tailer = watching(0, 10, 4);
    wake(&mut tailer);
    tailer.run(&vec![read(b"0123456789ab\n"), read(b"")]);
    tailer.handle(&TailerEvent::Size(13));
    assert_eq!(tailer.next_action(), TailerAction::Collapse(12));
    let out = tailer.handle(&TailerEvent::CollapseRefused);
    assert!(out.is_empty());
    assert_eq!(tailer.state(), TailerState::Truncating);
    assert_eq!(tailer.cursor(), 13);
    assert_eq!(tailer.next_action(), TailerAction::Save(13));
    tailer.handle(&TailerEvent::Saved);
    assert_eq!(tailer.state(), TailerState::Watching);
    assert_eq!(tailer.failure(), None);
}

#[test]
fn a_failed_removal_is_fatal() {
    let mut tailer = watching(0, 10, 4);
    tailer.run(&vec![
        TailerEvent::Signal(false),
        TailerEvent::Notified,
        read(b"0123456789ab\n"),
        read(b""),
        TailerEvent::Size(13),
    ]);
    tailer.handle(&TailerEvent::IoFailed);
    assert!(tailer.is_stopped());
    assert_eq!(tailer.failure(), Some(ErrorKind::IOError));
}

#[test]
fn a_cursor_inside_the_removed_range_lands_on_the_new_start() {
    let mut tailer = watching(0, 10, 4);
    wake(&mut tailer);
    tailer.run(&vec![read(b"ab\n"), read(b"")]);
    assert_eq!(tailer.cursor(), 3);
    tailer.handle(&TailerEvent::Size(13));
    assert_eq!(tailer.next_action(), TailerAction::Collapse(12));
    tailer.handle(&TailerEvent::Collapsed);
    assert_eq!(tailer.cursor(), 0);
    assert_eq!(tailer.next_action(), TailerAction::Save(0));
}

#[test]
fn the_signal_is_looked_at_before_each_wait() {
    let mut tailer = watching(0, 4096, 4096);
    assert_eq!(tailer.next_action(), TailerAction::CheckSignal);
    assert!(tailer.handle(&TailerEvent::Signal(false)).is_empty());
    assert_eq!(tailer.state(), TailerState::Watching);
    assert_eq!(tailer.next_action(), TailerAction::Wait);
    tailer.run(&vec![
        TailerEvent::Notified,
        read(b"a\n"),
        read(b""),
        TailerEvent::Size(2),
        TailerEvent::Saved,
    ]);
    assert_eq!(tailer.state(), TailerState::Watching);
    assert_eq!(tailer.next_action(), TailerAction::CheckSignal);
}

#[test]
fn an_interrupted_wait_is_retried() {
    let mut tailer = watching(0, 4096, 4096);
    tailer.handle(&TailerEvent::Signal(false));
    let out = tailer.handle(&TailerEvent::Interrupted);
    assert!(out.is_empty());
    assert_eq!(tailer.state(), TailerState::Watching);
    assert_eq!(tailer.next_action(), TailerAction::CheckSignal);
    tailer.handle(&TailerEvent::Signal(false));
    assert_eq!(tailer.next_action(), TailerAction::Wait);
    tailer.handle(&TailerEvent::Interrupted);
    let out = tailer.handle(&TailerEvent::Signal(true));
    assert!(out.is_empty());
    assert_eq!(tailer.state(), TailerState::Finalizing);
    assert_eq!(tailer.failure(), None);
}

#[test]
fn a_failed_wait_is_fatal() {
    let mut tailer = watching(0, 4096, 4096);
    let out = tailer.handle(&TailerEvent::IoFailed);
    assert!(out.is_empty());
    assert!(tailer.is_stopped());
    assert_eq!(tailer.failure(), Some(ErrorKind::IOError));
}

#[test]
fn a_line_that_is_not_utf8_is_fatal() {
    let mut tailer = watching(0, 4096, 4096);
    wake(&mut tailer);
    let out = tailer.handle(&read(b"good\n\xff\xfe\nlater\n"));
    assert_eq!(out, vec![data("good\n")]);
    assert!(tailer.is_stopped());
    assert_eq!(tailer.failure(), Some(ErrorKind::Utf8Error));
    assert!(tailer.handle(&read(b"more\n")).is_empty());
}

#[test]
fn lines_in_utf8_are_decoded() {
    let mut tailer = watching(0, 4096, 4096);
    wake(&mut tailer);
    let out = tailer.handle(&read("grüße\n日本語\n".as_bytes()));
    assert_eq!(out, vec![data("grüße\n"), data("日本語\n")]);
}

#[test]
fn a_closed_queue_is_fatal() {
    let mut tailer = watching(0, 4096, 4096);
    wake(&mut tailer);
    tailer.handle(&read(b"a\n"));
    let out = tailer.handle(&TailerEvent::QueueClosed);
    assert!(out.is_empty());
    assert!(tailer.is_stopped());
    assert_eq!(tailer.failure(), Some(ErrorKind::ChanError));
}

#[test]
fn a_queue_that_refuses_the_marker_spoils_a_clean_stop() {
    let mut tailer = watching(0, 4096, 4096);
    let out = tailer.run(&vec![TailerEvent::Signal(true), read(b""), TailerEvent::Saved]);
    assert_eq!(out, vec![QueueMessage::Shutdown]);
    assert_eq!(tailer.failure(), None);
    tailer.handle(&TailerEvent::QueueClosed);
    assert_eq!(tailer.failure(), Some(ErrorKind::ChanError));
    tailer.handle(&TailerEvent::IoFailed);
    assert_eq!(tailer.failure(), Some(ErrorKind::ChanError));
}

#[test]
fn a_cursor_cannot_leave_the_range_of_offsets() {
    let mut tailer = FileQueue::new(0, 4096, 4096);
    tailer.handle(&TailerEvent::Restored {
        saved: Some(encode_offset(u64::MAX - 1)),
        length: u64::MAX,
    });
    wake(&mut tailer);
    assert_eq!(tailer.next_action(), TailerAction::Read(u64::MAX - 1));
    let out = tailer.handle(&read(b"a\n"));
    assert!(out.is_empty());
    assert!(tailer.is_stopped());
    assert_eq!(tailer.failure(), Some(ErrorKind::IOError));
}

#[test]
fn shutdown_reads_once_more_saves_and_sends_the_marker() {
    let mut tailer = watching(0, 4096, 4096);
    tailer.handle(&TailerEvent::Signal(true));
    assert_eq!(tailer.state(), TailerState::Finalizing);
    assert_eq!(tailer.next_action(), TailerAction::Read(0));
    let out = tailer.handle(&read(b"late\npart"));
    assert_eq!(out, vec![data("late\n")]);
    assert_eq!(tailer.state(), TailerState::Finalizing);
    assert_eq!(tailer.cursor(), 5);
    assert_eq!(tailer.position(), 9);
    assert_eq!(tailer.pending_len(), 4);
    assert_eq!(tailer.next_action(), TailerAction::Save(5));
    let out = tailer.handle(&TailerEvent::Saved);
    assert_eq!(out, vec![QueueMessage::Shutdown]);
    assert!(tailer.is_stopped());
    assert_eq!(tailer.failure(), None);
    assert_eq!(tailer.next_action(), TailerAction::Stop);
}

#[test]
fn the_last_pass_saves_even_when_nothing_was_read() {
    let mut tailer = watching(0, 4096, 4096);
    tailer.handle(&TailerEvent::Signal(true));
    let out = tailer.handle(&read(b""));
    assert!(out.is_empty());
    assert_eq!(tailer.next_action(), TailerAction::Save(0));
}

#[test]
fn a_failed_last_save_sends_no_marker() {
    let mut tailer = watching(0, 4096, 4096);
    let out = tailer.run(&vec![TailerEvent::Signal(true), read(b""), TailerEvent::IoFailed]);
    assert!(out.is_empty());
    assert!(tailer.is_stopped());
    assert_eq!(tailer.failure(), Some(ErrorKind::IOError));
}

#[test]
fn the_marker_is_the_last_message() {
    let mut tailer = watching(0, 4096, 4096);
    let out = tailer.run(&vec![
        TailerEvent::Signal(false),
        TailerEvent::Notified,
        read(b"a\n"),
        read(b""),
        TailerEvent::Size(2),
        TailerEvent::Saved,
        TailerEvent::Signal(true),
        read(b"b\n"),
        read(b""),
        TailerEvent::Saved,
        TailerEvent::Signal(false),
        TailerEvent::Notified,
        read(b"c\n"),
        TailerEvent::Saved,
        TailerEvent::Signal(true),
        TailerEvent::Restored { saved: None, length: 0 },
    ]);
    assert_eq!(out, vec![data("a\n"), data("b\n"), QueueMessage::Shutdown]);
    assert!(tailer.is_stopped());
    assert_eq!(tailer.next_action(), TailerAction::Stop);
}

#[test]
fn events_that_answer_nothing_change_nothing() {
    let mut tailer = watching(0, 4096, 4096);
    let strays = vec![
        TailerEvent::Restored { saved: Some(encode_offset(77)), length: 100 },
        TailerEvent::Notified,
        TailerEvent::Interrupted,
        read(b"stray\n"),
        TailerEvent::Size(1 << 30),
        TailerEvent::Collapsed,
        TailerEvent::CollapseRefused,
        TailerEvent::Saved,
    ];
    let out = tailer.run(&strays);
    assert!(out.is_empty());
    assert_eq!(tailer.state(), TailerState::Watching);
    assert_eq!(tailer.next_action(), TailerAction::CheckSignal);
    assert_eq!(tailer.cursor(), 0);
    assert_eq!(tailer.pending_len(), 0);

    tailer.handle(&TailerEvent::Signal(false));
    for stray in [TailerEvent::Signal(true), TailerEvent::Saved, read(b"stray\n")] {
        assert!(tailer.handle(&stray).is_empty());
        assert_eq!(tailer.next_action(), TailerAction::Wait);
    }

    tailer.handle(&TailerEvent::Notified);
    for stray in [
        TailerEvent::Notified,
        TailerEvent::Interrupted,
        TailerEvent::Signal(true),
        TailerEvent::Saved,
    ] {
        assert!(tailer.handle(&stray).is_empty());
        assert_eq!(tailer.state(), TailerState::Draining);
        assert_eq!(tailer.next_action(), TailerAction::Read(0));
    }
}

#[test]
fn every_line_is_forwarded_once_however_the_reads_fall() {
    let stream: &[u8] = b"alpha\nbeta\n\ngamma delta\nepsilon\n";
    let expected = vec![
        data("alpha\n"),
        data("beta\n"),
        data("\n"),
        data("gamma delta\n"),
        data("epsilon\n"),
        QueueMessage::Shutdown,
    ];
    for a in 0..=stream.len() {
        for b in a..=stream.len() {
            let mut tailer = watching(0, 1 << 20, 4096);
            let mut out = Vec::new();
            let mut done = 0usize;
            for end in [a, b, stream.len()] {
                out.extend(wake(&mut tailer));
                let mut at = done;
                while let TailerAction::Read(pos) = tailer.next_action() {
                    assert_eq!(pos as usize, at);
                    out.extend(tailer.handle(&read(&stream[at..end])));
                    at = end;
                }
                done = end;
                if tailer.next_action() == TailerAction::Measure {
                    out.extend(tailer.handle(&TailerEvent::Size(done as u64)));
                    out.extend(tailer.handle(&TailerEvent::Saved));
                }
                assert_eq!(tailer.next_action(), TailerAction::CheckSignal);
            }
            out.extend(tailer.run(&vec![
                TailerEvent::Signal(true),
                read(b""),
                TailerEvent::Saved,
            ]));
            assert_eq!(out, expected);
            assert_eq!(tailer.cursor() as usize, stream.len());
            assert_eq!(tailer.pending_len(), 0);
        }
    }
}

#[test]
fn three_lines_and_a_signal_in_debug_mode() {
    let mut tailer = watching(0, 4096, 4096);
    let mut queue = Vec::new();
    for line in [&b"a\n"[..], &b"b\n"[..], &b"c\n"[..]] {
        queue.extend(wake(&mut tailer));
        queue.extend(tailer.run(&vec![read(line), read(b"")]));
        queue.extend(tailer.run(&vec![TailerEvent::Size(tailer.cursor()), TailerEvent::Saved]));
    }
    queue.extend(tailer.run(&vec![TailerEvent::Signal(true), read(b""), TailerEvent::Saved]));
    let (printed, status) = debug_run(&queue);
    assert_eq!(
        printed,
        vec!["Recv: a\n".to_string(), "Recv: b\n".to_string(), "Recv: c\n".to_string()]
    );
    assert_eq!(printed.concat(), "Recv: a\nRecv: b\nRecv: c\n");
    assert_eq!(status, 0);
}

#[test]
fn what_is_saved_does_not_count_the_pending_bytes() {
    let mut tailer = watching(0, 4096, 4096);
    let out = tailer.run(&vec![TailerEvent::Signal(true), read(b"hel")]);
    assert!(out.is_empty());
    assert_eq!(tailer.pending_len(), 3);
    assert_eq!(tailer.position(), 3);
    assert_eq!(tailer.cursor(), 0);
    assert_eq!(tailer.next_action(), TailerAction::Save(0));

    let mut other = watching(0, 4096, 4096);
    wake(&mut other);
    other.run(&vec![read(b"one\n"), read(b"two\nthr")]);
    assert_eq!(other.cursor(), 8);
    assert_eq!(other.position(), 11);
    other.handle(&TailerEvent::Size(11));
    assert_eq!(other.next_action(), TailerAction::Save(8));
}

#[test]
fn a_line_pending_at_a_clean_stop_is_forwarded_whole_after_the_restart() {
    let mut first = watching(0, 4096, 4096);
    let out = first.run(&vec![TailerEvent::Signal(true), read(b"hel")]);
    assert!(out.is_empty());
    let saved = match first.next_action() {
        TailerAction::Save(pos) => pos,
        _ => unreachable!(),
    };
    assert_eq!(saved, 0);
    assert_eq!(first.handle(&TailerEvent::Saved), vec![QueueMessage::Shutdown]);
    assert_eq!(first.failure(), None);

    let file: &[u8] = b"hello\n";
    let mut second = FileQueue::new(0, 4096, 4096);
    second.handle(&TailerEvent::Restored {
        saved: Some(encode_offset(saved)),
        length: file.len() as u64,
    });
    assert_eq!(second.pending_len(), 0);
    wake(&mut second);
    let at = match second.next_action() {
        TailerAction::Read(at) => at as usize,
        _ => unreachable!(),
    };
    assert_eq!(at, 0);
    assert_eq!(second.handle(&read(&file[at..])), vec![data("hello\n")]);
}

#[test]
fn every_line_is_forwarded_once_wherever_the_tailer_is_restarted() {
    let stream: &[u8] = b"alpha\nbeta\n\ngamma delta\nepsilon\n";
    let expected = vec![
        data("alpha\n"),
        data("beta\n"),
        data("\n"),
        data("gamma delta\n"),
        data("epsilon\n"),
    ];
    for stop in 0..=stream.len() {
        let mut first = watching(0, 1 << 20, 4096);
        let mut out = first.run(&vec![TailerEvent::Signal(true), read(&stream[..stop])]);
        if let TailerAction::Read(at) = first.next_action() {
            assert_eq!(at as usize, stop);
            out.extend(first.handle(&read(b"")));
        }
        let saved = match first.next_action() {
            TailerAction::Save(pos) => pos,
            _ => unreachable!(),
        };
        assert_eq!(saved as usize + first.pending_len(), stop);
        assert_eq!(first.handle(&TailerEvent::Saved), vec![QueueMessage::Shutdown]);

        let mut second = FileQueue::new(0, 1 << 20, 4096);
        second.handle(&TailerEvent::Restored {
            saved: Some(encode_offset(saved)),
            length: stream.len() as u64,
        });
        out.extend(second.run(&vec![
            TailerEvent::Signal(true),
            read(&stream[saved as usize..]),
            read(b""),
            TailerEvent::Saved,
        ]));
        let mut all = expected.clone();
        all.push(QueueMessage::Shutdown);
        assert_eq!(out, all);
        assert_eq!(second.cursor() as usize, stream.len());
    }
}

#[test]
fn a_removal_that_reaches_into_the_pending_line_moves_both_offsets() {
    let mut tailer = watching(0, 10, 4);
    wake(&mut tailer);
    tailer.run(&vec![read(b"ab\n"), read(b"0123456789")]);
    assert_eq!(tailer.cursor(), 3);
    assert_eq!(tailer.position(), 13);
    tailer.handle(&TailerEvent::Size(13));
    assert_eq!(tailer.next_action(), TailerAction::Collapse(12));
    tailer.handle(&TailerEvent::Collapsed);
    assert_eq!(tailer.cursor(), 0);
    assert_eq!(tailer.position(), 1);
    assert_eq!(tailer.pending_len(), 10);
    assert_eq!(tailer.next_action(), TailerAction::Save(0));
    tailer.handle(&TailerEvent::Saved);
    wake(&mut tailer);
    assert_eq!(tailer.next_action(), TailerAction::Read(1));
    assert_eq!(tailer.handle(&read(b"x\n")), vec![data("0123456789x\n")]);
    assert_eq!(tailer.cursor(), 3);
    assert_eq!(tailer.position(), 3);
}
