use light_control::edt::Event;
use light_control::edt::PayloadEquals;
use light_control::edt::EDT;

#[test]
fn events_are_appended_to_the_queue() {
    let mut edt: EDT<u32> = EDT::create();

    // when
    edt.schedule(1000, 1);
    edt.schedule(3000, 2);
    edt.schedule(3000, 3);
    edt.schedule(3000, 4);

    // assert that queue has 4 messages
    assert_eq!(edt.queue_len(), 4);
}

#[test]
fn events_can_be_removed_with_predicate() {
    let mut edt: EDT<u32> = EDT::create();

    // given
    edt.schedule(1000, 1);
    edt.schedule(3000, 2);
    edt.schedule(3000, 2);
    edt.schedule(3000, 4);

    // when
    edt.remove(&PayloadEquals { value: 2 });

    // then 2 messages are removed, 2 retained
    assert_eq!(edt.queue_len(), 2);
}

#[test]
fn events_are_handled_based_on_the_time() {
    let mut edt: EDT<u32> = EDT::create();
    edt.schedule(30, 3);
    edt.schedule(20, 2);
    edt.schedule(10, 1);
    edt.schedule(0, 0);

    // when time advances 25 milliseconds
    let handled = edt.advance_time_by(25);
    let events: Vec<u32> = handled.iter().map(|msg| msg.payload).collect();

    // then three messages are handled, according to their due time
    assert_eq!(events, vec![0, 1, 2]);

    // then one event message remains
    assert_eq!(edt.queue_len(), 1);
}

#[test]
fn events_are_handled_based_on_the_insertion_order() {
    let mut edt: EDT<u32> = EDT::create();
    edt.schedule(10, 0);
    edt.schedule(10, 1);
    edt.schedule(10, 2);
    edt.schedule(5, 3);

    edt.remove(&PayloadEquals { value: 1 });
    edt.remove(&PayloadEquals { value: 2 });

    // events scheduled after the removal join the same due-time bucket
    edt.schedule(10, 4);
    edt.schedule(10, 5);

    // when time advances 25 milliseconds
    let handled = edt.advance_time_by(25);
    let events: Vec<u32> = handled.iter().map(|msg| msg.payload).collect();

    // then the messages are handled by due time, and, within one due
    // time, in scheduling order
    assert_eq!(events, vec![3, 0, 4, 5]);

    // then no event message remains
    assert_eq!(edt.queue_len(), 0);
}

#[test]
fn polling_an_empty_queue_always_halts() {
    let mut edt: EDT<u32> = EDT::create();
    for _ in 0..3 {
        assert!(matches!(edt.poll(), Event::Halt));
    }
    assert_eq!(edt.now(), 0);
}

#[test]
fn waiting_then_executing() {
    let mut edt: EDT<u32> = EDT::create();
    edt.schedule(40, 7);
    match edt.poll() {
        Event::Wait { ms } => assert_eq!(ms, 40),
        _ => panic!("expected a wait"),
    }
    match edt.poll() {
        Event::Execute { msg } => assert_eq!(msg, 7),
        _ => panic!("expected an execution"),
    }
    assert_eq!(edt.now(), 40);
    assert!(matches!(edt.poll(), Event::Halt));
}

#[test]
fn equal_due_times_run_in_call_order() {
    let mut edt: EDT<u32> = EDT::create();
    edt.schedule(1000, 1);
    edt.schedule(3000, 2);
    edt.schedule(3000, 3);
    let handled = edt.advance_time_by(3000);
    let events: Vec<u32> = handled.iter().map(|msg| msg.payload).collect();
    assert_eq!(events, vec![1, 2, 3]);
}
