use search_core::threadpool::channel::{channel, Futex, THREADS_MASK};
use search_core::threadpool::{
    available_threads, binds_threads, respond, Action, Clock, Command, Report,
};

#[test]
fn futex_words_pack_count_and_generation() {
    assert_eq!(Futex { threads: 0, generation: false }.pack(), 0);
    assert_eq!(Futex { threads: 5, generation: false }.pack(), 5);
    assert_eq!(Futex { threads: 5, generation: true }.pack(), 0x8000_0005);
    assert_eq!(Futex { threads: THREADS_MASK, generation: true }.pack(), u32::MAX);
    assert_eq!(Futex::unpack(0x8000_0005), Futex { threads: 5, generation: true });
    assert_eq!(Futex::unpack(0x7FFF_FFFF), Futex { threads: THREADS_MASK, generation: false });
    for raw in [0u32, 1, 2, 0x7FFF_FFFE, 0x8000_0000, 0x8000_0001, 0xDEAD_BEEF, u32::MAX] {
        assert_eq!(Futex::unpack(raw).pack(), raw);
    }
    // A receiver's decrement leaves the generation alone.
    let word = Futex { threads: 3, generation: true };
    assert_eq!(Futex::unpack(word.pack() - 1), Futex { threads: 2, generation: true });
}

#[test]
fn futex_decisions() {
    let idle = Futex { threads: 0, generation: true };
    assert_eq!(idle.next_broadcast(4), Some(Futex { threads: 4, generation: false }));
    assert_eq!(Futex { threads: 1, generation: true }.next_broadcast(4), None);
    assert!(idle.drained());
    assert!(!Futex { threads: 2, generation: false }.drained());
    assert!(idle.fresh_for(false));
    assert!(!idle.fresh_for(true));
    assert!(Futex { threads: 1, generation: false }.was_last());
    assert!(!Futex { threads: 2, generation: false }.was_last());
    assert!(!Futex { threads: 0, generation: false }.was_last());
}

#[test]
fn broadcast_reaches_all_four_receivers() {
    let (mut tx, mut rxs) = channel(4);
    assert_eq!(rxs.len(), 4);
    let message = "go";
    let slot = Some(message);
    assert!(!tx.is_sending());
    assert_eq!(tx.send(), Some(Futex { threads: 4, generation: true }));
    assert!(tx.is_sending());

    let mut handled = Vec::new();
    for (i, rx) in rxs.iter_mut().enumerate() {
        assert!(!rx.is_holding());
        assert!(rx.recv());
        assert!(rx.is_holding());
        handled.push((i, slot.unwrap()));
        let last = rx.release();
        assert_eq!(last, i == 3);
        assert!(!rx.is_holding());
    }
    assert_eq!(handled, vec![(0, "go"), (1, "go"), (2, "go"), (3, "go")]);
    assert!(tx.drained());
    assert!(!tx.is_sending());
    // The word reads no receiver outstanding: the next broadcast may begin.
    assert_eq!(tx.send(), Some(Futex { threads: 4, generation: false }));
}

#[test]
fn receivers_see_messages_in_send_order() {
    let (mut tx, mut rxs) = channel(3);
    let mut seen: Vec<Vec<&str>> = vec![Vec::new(); 3];
    for message in ["clear", "go"] {
        assert!(tx.send().is_some());
        // The receivers take the message in some other order each time.
        let order: [usize; 3] = if message == "clear" { [2, 0, 1] } else { [1, 2, 0] };
        for (n, i) in order.into_iter().enumerate() {
            assert!(rxs[i].recv());
            seen[i].push(message);
            assert_eq!(rxs[i].release(), n == 2);
        }
        assert!(tx.drained());
    }
    for log in seen {
        assert_eq!(log, vec!["clear", "go"]);
    }
}

#[test]
fn a_single_receiver_is_the_last_one() {
    let (mut tx, mut rxs) = channel(1);
    assert_eq!(rxs.len(), 1);
    for round in 0..5 {
        let published = tx.send().unwrap();
        assert_eq!(published, Futex { threads: 1, generation: round % 2 == 0 });
        assert!(rxs[0].recv());
        assert!(rxs[0].release());
        assert!(tx.drained());
    }
}

#[test]
fn workers_answer_commands() {
    assert_eq!(respond(0, Command::Ping), Action::Idle);
    assert_eq!(respond(3, Command::Ping), Action::Idle);
    assert_eq!(respond(0, Command::Clear), Action::Reset);
    assert_eq!(respond(7, Command::Quit), Action::Exit);
    assert_eq!(
        respond(0, Command::Go(Report::Uci)),
        Action::Search {
            clock: Clock::Given,
            adopt_multi_pv: true,
            report: Report::Uci,
            stop_others: true,
            report_result: true,
        }
    );
    assert_eq!(
        respond(0, Command::Go(Report::Silent)),
        Action::Search {
            clock: Clock::Given,
            adopt_multi_pv: true,
            report: Report::Silent,
            stop_others: true,
            report_result: false,
        }
    );
    assert_eq!(
        respond(1, Command::Go(Report::Pretty)),
        Action::Search {
            clock: Clock::Infinite,
            adopt_multi_pv: false,
            report: Report::Silent,
            stop_others: false,
            report_result: false,
        }
    );
}

#[test]
fn thread_limits() {
    assert_eq!(available_threads(None), 512);
    assert_eq!(available_threads(Some(1)), 512);
    assert_eq!(available_threads(Some(128)), 512);
    assert_eq!(available_threads(Some(129)), 516);
    assert_eq!(available_threads(Some(1000)), 4000);
    assert!(binds_threads(4, 8));
    assert!(binds_threads(4, 9));
    assert!(!binds_threads(4, 10));
    assert!(binds_threads(0, 1));
    assert!(!binds_threads(0, 2));
}
